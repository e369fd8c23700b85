//! The command table: every name the server knows, grouped by how it
//! is dispatched (replicated write, barrier-protected read, stateless,
//! system, transaction control), with the argument count each expects.
//! Names are matched case-insensitively against the closed table.

use vstd::prelude::*;
use vstd::string::StringSliceAdditionalSpecFns;
use crate::redis::error::{RedisError, ResponseError};
use crate::raft::types::copy_bytes;

verus! {

/// How many arguments (after the name) a command takes.
#[derive(Debug, Clone, Copy, PartialEq, Eq, Structural)]
pub enum Arity {
    Fixed(usize),
    AtLeast(usize),
}

impl Arity {
    /// Whether an argument count satisfies this arity.
    pub open spec fn admits(self, n: nat) -> bool {
        match self {
            Arity::Fixed(k) => n == k,
            Arity::AtLeast(k) => n >= k,
        }
    }

    pub fn check(&self, n: usize) -> (r: bool)
        ensures
            r == self.admits(n as nat),
    {
        match self {
            Arity::Fixed(k) => n == *k,
            Arity::AtLeast(k) => n >= *k,
        }
    }
}

#[derive(Debug, Clone, Copy, PartialEq, Eq, Structural)]
pub enum WriteCommand {
    Append,
    BitOp,
    Decr,
    DecrBy,
    Del,
    FlushAll,
    FlushDb,
    GetDel,
    GetSet,
    HDel,
    HIncrBy,
    HMSet,
    HSet,
    HSetNx,
    Incr,
    IncrBy,
    LPop,
    LPush,
    LPushX,
    LSet,
    LTrim,
    MSet,
    MSetNx,
    Rename,
    RenameNx,
    RPop,
    RPopLPush,
    RPush,
    RPushX,
    SAdd,
    SDiffStore,
    SetCmd,
    SetBit,
    SetNx,
    SetRange,
    SInterStore,
    SMove,
    SRem,
    SUnionStore,
}

#[derive(Debug, Clone, Copy, PartialEq, Eq, Structural)]
pub enum ReadCommand {
    BitCount,
    DbSize,
    Exists,
    Get,
    GetBit,
    GetRange,
    HExists,
    HGet,
    HGetAll,
    HKeys,
    HLen,
    HMGet,
    HStrLen,
    HVals,
    Keys,
    LIndex,
    LLen,
    LRange,
    MGet,
    SCard,
    SDiff,
    SInter,
    SIsMember,
    SMembers,
    SMIsMember,
    StrLen,
    SubStr,
    SUnion,
    Type,
}

#[derive(Debug, Clone, Copy, PartialEq, Eq, Structural)]
pub enum StatelessCommand {
    Echo,
    Ping,
    Time,
}

#[derive(Debug, Clone, Copy, PartialEq, Eq, Structural)]
pub enum SystemCommand {
    Cluster,
    Info,
    PSubscribe,
    Publish,
    PubSub,
    PUnsubscribe,
    ReadOnly,
    ReadWrite,
    Select,
    Shutdown,
    Subscribe,
    Unsubscribe,
}

#[derive(Debug, Clone, Copy, PartialEq, Eq, Structural)]
pub enum TransactionCommand {
    Discard,
    Exec,
    Multi,
}

/// A parsed command name.
#[derive(Debug, Clone, Copy, PartialEq, Eq, Structural)]
pub enum RedisCommand {
    Write(WriteCommand),
    Read(ReadCommand),
    Stateless(StatelessCommand),
    System(SystemCommand),
    Transaction(TransactionCommand),
}

/// The wire name of a command, uppercase.
pub open spec fn command_name(c: RedisCommand) -> Seq<u8> {
    match c {
        RedisCommand::Write(WriteCommand::Append) => "APPEND".spec_bytes(),
        RedisCommand::Write(WriteCommand::BitOp) => "BITOP".spec_bytes(),
        RedisCommand::Write(WriteCommand::Decr) => "DECR".spec_bytes(),
        RedisCommand::Write(WriteCommand::DecrBy) => "DECRBY".spec_bytes(),
        RedisCommand::Write(WriteCommand::Del) => "DEL".spec_bytes(),
        RedisCommand::Write(WriteCommand::FlushAll) => "FLUSHALL".spec_bytes(),
        RedisCommand::Write(WriteCommand::FlushDb) => "FLUSHDB".spec_bytes(),
        RedisCommand::Write(WriteCommand::GetDel) => "GETDEL".spec_bytes(),
        RedisCommand::Write(WriteCommand::GetSet) => "GETSET".spec_bytes(),
        RedisCommand::Write(WriteCommand::HDel) => "HDEL".spec_bytes(),
        RedisCommand::Write(WriteCommand::HIncrBy) => "HINCRBY".spec_bytes(),
        RedisCommand::Write(WriteCommand::HMSet) => "HMSET".spec_bytes(),
        RedisCommand::Write(WriteCommand::HSet) => "HSET".spec_bytes(),
        RedisCommand::Write(WriteCommand::HSetNx) => "HSETNX".spec_bytes(),
        RedisCommand::Write(WriteCommand::Incr) => "INCR".spec_bytes(),
        RedisCommand::Write(WriteCommand::IncrBy) => "INCRBY".spec_bytes(),
        RedisCommand::Write(WriteCommand::LPop) => "LPOP".spec_bytes(),
        RedisCommand::Write(WriteCommand::LPush) => "LPUSH".spec_bytes(),
        RedisCommand::Write(WriteCommand::LPushX) => "LPUSHX".spec_bytes(),
        RedisCommand::Write(WriteCommand::LSet) => "LSET".spec_bytes(),
        RedisCommand::Write(WriteCommand::LTrim) => "LTRIM".spec_bytes(),
        RedisCommand::Write(WriteCommand::MSet) => "MSET".spec_bytes(),
        RedisCommand::Write(WriteCommand::MSetNx) => "MSETNX".spec_bytes(),
        RedisCommand::Write(WriteCommand::Rename) => "RENAME".spec_bytes(),
        RedisCommand::Write(WriteCommand::RenameNx) => "RENAMENX".spec_bytes(),
        RedisCommand::Write(WriteCommand::RPop) => "RPOP".spec_bytes(),
        RedisCommand::Write(WriteCommand::RPopLPush) => "RPOPLPUSH".spec_bytes(),
        RedisCommand::Write(WriteCommand::RPush) => "RPUSH".spec_bytes(),
        RedisCommand::Write(WriteCommand::RPushX) => "RPUSHX".spec_bytes(),
        RedisCommand::Write(WriteCommand::SAdd) => "SADD".spec_bytes(),
        RedisCommand::Write(WriteCommand::SDiffStore) => "SDIFFSTORE".spec_bytes(),
        RedisCommand::Write(WriteCommand::SetCmd) => "SET".spec_bytes(),
        RedisCommand::Write(WriteCommand::SetBit) => "SETBIT".spec_bytes(),
        RedisCommand::Write(WriteCommand::SetNx) => "SETNX".spec_bytes(),
        RedisCommand::Write(WriteCommand::SetRange) => "SETRANGE".spec_bytes(),
        RedisCommand::Write(WriteCommand::SInterStore) => "SINTERSTORE".spec_bytes(),
        RedisCommand::Write(WriteCommand::SMove) => "SMOVE".spec_bytes(),
        RedisCommand::Write(WriteCommand::SRem) => "SREM".spec_bytes(),
        RedisCommand::Write(WriteCommand::SUnionStore) => "SUNIONSTORE".spec_bytes(),
        RedisCommand::Read(ReadCommand::BitCount) => "BITCOUNT".spec_bytes(),
        RedisCommand::Read(ReadCommand::DbSize) => "DBSIZE".spec_bytes(),
        RedisCommand::Read(ReadCommand::Exists) => "EXISTS".spec_bytes(),
        RedisCommand::Read(ReadCommand::Get) => "GET".spec_bytes(),
        RedisCommand::Read(ReadCommand::GetBit) => "GETBIT".spec_bytes(),
        RedisCommand::Read(ReadCommand::GetRange) => "GETRANGE".spec_bytes(),
        RedisCommand::Read(ReadCommand::HExists) => "HEXISTS".spec_bytes(),
        RedisCommand::Read(ReadCommand::HGet) => "HGET".spec_bytes(),
        RedisCommand::Read(ReadCommand::HGetAll) => "HGETALL".spec_bytes(),
        RedisCommand::Read(ReadCommand::HKeys) => "HKEYS".spec_bytes(),
        RedisCommand::Read(ReadCommand::HLen) => "HLEN".spec_bytes(),
        RedisCommand::Read(ReadCommand::HMGet) => "HMGET".spec_bytes(),
        RedisCommand::Read(ReadCommand::HStrLen) => "HSTRLEN".spec_bytes(),
        RedisCommand::Read(ReadCommand::HVals) => "HVALS".spec_bytes(),
        RedisCommand::Read(ReadCommand::Keys) => "KEYS".spec_bytes(),
        RedisCommand::Read(ReadCommand::LIndex) => "LINDEX".spec_bytes(),
        RedisCommand::Read(ReadCommand::LLen) => "LLEN".spec_bytes(),
        RedisCommand::Read(ReadCommand::LRange) => "LRANGE".spec_bytes(),
        RedisCommand::Read(ReadCommand::MGet) => "MGET".spec_bytes(),
        RedisCommand::Read(ReadCommand::SCard) => "SCARD".spec_bytes(),
        RedisCommand::Read(ReadCommand::SDiff) => "SDIFF".spec_bytes(),
        RedisCommand::Read(ReadCommand::SInter) => "SINTER".spec_bytes(),
        RedisCommand::Read(ReadCommand::SIsMember) => "SISMEMBER".spec_bytes(),
        RedisCommand::Read(ReadCommand::SMembers) => "SMEMBERS".spec_bytes(),
        RedisCommand::Read(ReadCommand::SMIsMember) => "SMISMEMBER".spec_bytes(),
        RedisCommand::Read(ReadCommand::StrLen) => "STRLEN".spec_bytes(),
        RedisCommand::Read(ReadCommand::SubStr) => "SUBSTR".spec_bytes(),
        RedisCommand::Read(ReadCommand::SUnion) => "SUNION".spec_bytes(),
        RedisCommand::Read(ReadCommand::Type) => "TYPE".spec_bytes(),
        RedisCommand::Stateless(StatelessCommand::Echo) => "ECHO".spec_bytes(),
        RedisCommand::Stateless(StatelessCommand::Ping) => "PING".spec_bytes(),
        RedisCommand::Stateless(StatelessCommand::Time) => "TIME".spec_bytes(),
        RedisCommand::System(SystemCommand::Cluster) => "CLUSTER".spec_bytes(),
        RedisCommand::System(SystemCommand::Info) => "INFO".spec_bytes(),
        RedisCommand::System(SystemCommand::PSubscribe) => "PSUBSCRIBE".spec_bytes(),
        RedisCommand::System(SystemCommand::Publish) => "PUBLISH".spec_bytes(),
        RedisCommand::System(SystemCommand::PubSub) => "PUBSUB".spec_bytes(),
        RedisCommand::System(SystemCommand::PUnsubscribe) => "PUNSUBSCRIBE".spec_bytes(),
        RedisCommand::System(SystemCommand::ReadOnly) => "READONLY".spec_bytes(),
        RedisCommand::System(SystemCommand::ReadWrite) => "READWRITE".spec_bytes(),
        RedisCommand::System(SystemCommand::Select) => "SELECT".spec_bytes(),
        RedisCommand::System(SystemCommand::Shutdown) => "SHUTDOWN".spec_bytes(),
        RedisCommand::System(SystemCommand::Subscribe) => "SUBSCRIBE".spec_bytes(),
        RedisCommand::System(SystemCommand::Unsubscribe) => "UNSUBSCRIBE".spec_bytes(),
        RedisCommand::Transaction(TransactionCommand::Discard) => "DISCARD".spec_bytes(),
        RedisCommand::Transaction(TransactionCommand::Exec) => "EXEC".spec_bytes(),
        RedisCommand::Transaction(TransactionCommand::Multi) => "MULTI".spec_bytes(),
    }
}

/// The arity of each command.
pub open spec fn arity_spec(c: RedisCommand) -> Arity {
    match c {
        RedisCommand::Write(WriteCommand::Append) => Arity::Fixed(2),
        RedisCommand::Write(WriteCommand::BitOp) => Arity::AtLeast(3),
        RedisCommand::Write(WriteCommand::Decr) => Arity::Fixed(1),
        RedisCommand::Write(WriteCommand::DecrBy) => Arity::Fixed(2),
        RedisCommand::Write(WriteCommand::Del) => Arity::AtLeast(1),
        RedisCommand::Write(WriteCommand::FlushAll) => Arity::AtLeast(0),
        RedisCommand::Write(WriteCommand::FlushDb) => Arity::AtLeast(0),
        RedisCommand::Write(WriteCommand::GetDel) => Arity::Fixed(1),
        RedisCommand::Write(WriteCommand::GetSet) => Arity::Fixed(2),
        RedisCommand::Write(WriteCommand::HDel) => Arity::AtLeast(2),
        RedisCommand::Write(WriteCommand::HIncrBy) => Arity::Fixed(3),
        RedisCommand::Write(WriteCommand::HMSet) => Arity::AtLeast(3),
        RedisCommand::Write(WriteCommand::HSet) => Arity::AtLeast(3),
        RedisCommand::Write(WriteCommand::HSetNx) => Arity::Fixed(3),
        RedisCommand::Write(WriteCommand::Incr) => Arity::Fixed(1),
        RedisCommand::Write(WriteCommand::IncrBy) => Arity::Fixed(2),
        RedisCommand::Write(WriteCommand::LPop) => Arity::AtLeast(1),
        RedisCommand::Write(WriteCommand::LPush) => Arity::AtLeast(2),
        RedisCommand::Write(WriteCommand::LPushX) => Arity::AtLeast(2),
        RedisCommand::Write(WriteCommand::LSet) => Arity::Fixed(3),
        RedisCommand::Write(WriteCommand::LTrim) => Arity::Fixed(3),
        RedisCommand::Write(WriteCommand::MSet) => Arity::AtLeast(2),
        RedisCommand::Write(WriteCommand::MSetNx) => Arity::AtLeast(2),
        RedisCommand::Write(WriteCommand::Rename) => Arity::Fixed(2),
        RedisCommand::Write(WriteCommand::RenameNx) => Arity::Fixed(2),
        RedisCommand::Write(WriteCommand::RPop) => Arity::AtLeast(1),
        RedisCommand::Write(WriteCommand::RPopLPush) => Arity::Fixed(2),
        RedisCommand::Write(WriteCommand::RPush) => Arity::AtLeast(2),
        RedisCommand::Write(WriteCommand::RPushX) => Arity::AtLeast(2),
        RedisCommand::Write(WriteCommand::SAdd) => Arity::AtLeast(2),
        RedisCommand::Write(WriteCommand::SDiffStore) => Arity::AtLeast(2),
        RedisCommand::Write(WriteCommand::SetCmd) => Arity::AtLeast(2),
        RedisCommand::Write(WriteCommand::SetBit) => Arity::Fixed(3),
        RedisCommand::Write(WriteCommand::SetNx) => Arity::Fixed(2),
        RedisCommand::Write(WriteCommand::SetRange) => Arity::Fixed(3),
        RedisCommand::Write(WriteCommand::SInterStore) => Arity::AtLeast(2),
        RedisCommand::Write(WriteCommand::SMove) => Arity::Fixed(3),
        RedisCommand::Write(WriteCommand::SRem) => Arity::AtLeast(2),
        RedisCommand::Write(WriteCommand::SUnionStore) => Arity::AtLeast(2),
        RedisCommand::Read(ReadCommand::BitCount) => Arity::AtLeast(1),
        RedisCommand::Read(ReadCommand::DbSize) => Arity::Fixed(0),
        RedisCommand::Read(ReadCommand::Exists) => Arity::AtLeast(1),
        RedisCommand::Read(ReadCommand::Get) => Arity::Fixed(1),
        RedisCommand::Read(ReadCommand::GetBit) => Arity::Fixed(2),
        RedisCommand::Read(ReadCommand::GetRange) => Arity::Fixed(3),
        RedisCommand::Read(ReadCommand::HExists) => Arity::Fixed(2),
        RedisCommand::Read(ReadCommand::HGet) => Arity::Fixed(2),
        RedisCommand::Read(ReadCommand::HGetAll) => Arity::Fixed(1),
        RedisCommand::Read(ReadCommand::HKeys) => Arity::Fixed(1),
        RedisCommand::Read(ReadCommand::HLen) => Arity::Fixed(1),
        RedisCommand::Read(ReadCommand::HMGet) => Arity::AtLeast(2),
        RedisCommand::Read(ReadCommand::HStrLen) => Arity::Fixed(2),
        RedisCommand::Read(ReadCommand::HVals) => Arity::Fixed(1),
        RedisCommand::Read(ReadCommand::Keys) => Arity::Fixed(1),
        RedisCommand::Read(ReadCommand::LIndex) => Arity::Fixed(2),
        RedisCommand::Read(ReadCommand::LLen) => Arity::Fixed(1),
        RedisCommand::Read(ReadCommand::LRange) => Arity::Fixed(3),
        RedisCommand::Read(ReadCommand::MGet) => Arity::AtLeast(1),
        RedisCommand::Read(ReadCommand::SCard) => Arity::Fixed(1),
        RedisCommand::Read(ReadCommand::SDiff) => Arity::AtLeast(1),
        RedisCommand::Read(ReadCommand::SInter) => Arity::AtLeast(1),
        RedisCommand::Read(ReadCommand::SIsMember) => Arity::Fixed(2),
        RedisCommand::Read(ReadCommand::SMembers) => Arity::Fixed(1),
        RedisCommand::Read(ReadCommand::SMIsMember) => Arity::AtLeast(2),
        RedisCommand::Read(ReadCommand::StrLen) => Arity::Fixed(1),
        RedisCommand::Read(ReadCommand::SubStr) => Arity::Fixed(3),
        RedisCommand::Read(ReadCommand::SUnion) => Arity::AtLeast(1),
        RedisCommand::Read(ReadCommand::Type) => Arity::Fixed(1),
        RedisCommand::Stateless(StatelessCommand::Echo) => Arity::Fixed(1),
        RedisCommand::Stateless(StatelessCommand::Ping) => Arity::AtLeast(0),
        RedisCommand::Stateless(StatelessCommand::Time) => Arity::Fixed(0),
        RedisCommand::System(SystemCommand::Cluster) => Arity::AtLeast(1),
        RedisCommand::System(SystemCommand::Info) => Arity::AtLeast(0),
        RedisCommand::System(SystemCommand::PSubscribe) => Arity::AtLeast(1),
        RedisCommand::System(SystemCommand::Publish) => Arity::Fixed(2),
        RedisCommand::System(SystemCommand::PubSub) => Arity::AtLeast(1),
        RedisCommand::System(SystemCommand::PUnsubscribe) => Arity::AtLeast(0),
        RedisCommand::System(SystemCommand::ReadOnly) => Arity::Fixed(0),
        RedisCommand::System(SystemCommand::ReadWrite) => Arity::Fixed(0),
        RedisCommand::System(SystemCommand::Select) => Arity::Fixed(1),
        RedisCommand::System(SystemCommand::Shutdown) => Arity::AtLeast(0),
        RedisCommand::System(SystemCommand::Subscribe) => Arity::AtLeast(1),
        RedisCommand::System(SystemCommand::Unsubscribe) => Arity::AtLeast(0),
        RedisCommand::Transaction(TransactionCommand::Discard) => Arity::Fixed(0),
        RedisCommand::Transaction(TransactionCommand::Exec) => Arity::Fixed(0),
        RedisCommand::Transaction(TransactionCommand::Multi) => Arity::Fixed(0),
    }
}

impl RedisCommand {
    /// The arity of this command.
    pub fn arity(&self) -> (r: Arity)
        ensures
            r == arity_spec(*self),
    {
        match self {
            RedisCommand::Write(WriteCommand::Append) => Arity::Fixed(2),
            RedisCommand::Write(WriteCommand::BitOp) => Arity::AtLeast(3),
            RedisCommand::Write(WriteCommand::Decr) => Arity::Fixed(1),
            RedisCommand::Write(WriteCommand::DecrBy) => Arity::Fixed(2),
            RedisCommand::Write(WriteCommand::Del) => Arity::AtLeast(1),
            RedisCommand::Write(WriteCommand::FlushAll) => Arity::AtLeast(0),
            RedisCommand::Write(WriteCommand::FlushDb) => Arity::AtLeast(0),
            RedisCommand::Write(WriteCommand::GetDel) => Arity::Fixed(1),
            RedisCommand::Write(WriteCommand::GetSet) => Arity::Fixed(2),
            RedisCommand::Write(WriteCommand::HDel) => Arity::AtLeast(2),
            RedisCommand::Write(WriteCommand::HIncrBy) => Arity::Fixed(3),
            RedisCommand::Write(WriteCommand::HMSet) => Arity::AtLeast(3),
            RedisCommand::Write(WriteCommand::HSet) => Arity::AtLeast(3),
            RedisCommand::Write(WriteCommand::HSetNx) => Arity::Fixed(3),
            RedisCommand::Write(WriteCommand::Incr) => Arity::Fixed(1),
            RedisCommand::Write(WriteCommand::IncrBy) => Arity::Fixed(2),
            RedisCommand::Write(WriteCommand::LPop) => Arity::AtLeast(1),
            RedisCommand::Write(WriteCommand::LPush) => Arity::AtLeast(2),
            RedisCommand::Write(WriteCommand::LPushX) => Arity::AtLeast(2),
            RedisCommand::Write(WriteCommand::LSet) => Arity::Fixed(3),
            RedisCommand::Write(WriteCommand::LTrim) => Arity::Fixed(3),
            RedisCommand::Write(WriteCommand::MSet) => Arity::AtLeast(2),
            RedisCommand::Write(WriteCommand::MSetNx) => Arity::AtLeast(2),
            RedisCommand::Write(WriteCommand::Rename) => Arity::Fixed(2),
            RedisCommand::Write(WriteCommand::RenameNx) => Arity::Fixed(2),
            RedisCommand::Write(WriteCommand::RPop) => Arity::AtLeast(1),
            RedisCommand::Write(WriteCommand::RPopLPush) => Arity::Fixed(2),
            RedisCommand::Write(WriteCommand::RPush) => Arity::AtLeast(2),
            RedisCommand::Write(WriteCommand::RPushX) => Arity::AtLeast(2),
            RedisCommand::Write(WriteCommand::SAdd) => Arity::AtLeast(2),
            RedisCommand::Write(WriteCommand::SDiffStore) => Arity::AtLeast(2),
            RedisCommand::Write(WriteCommand::SetCmd) => Arity::AtLeast(2),
            RedisCommand::Write(WriteCommand::SetBit) => Arity::Fixed(3),
            RedisCommand::Write(WriteCommand::SetNx) => Arity::Fixed(2),
            RedisCommand::Write(WriteCommand::SetRange) => Arity::Fixed(3),
            RedisCommand::Write(WriteCommand::SInterStore) => Arity::AtLeast(2),
            RedisCommand::Write(WriteCommand::SMove) => Arity::Fixed(3),
            RedisCommand::Write(WriteCommand::SRem) => Arity::AtLeast(2),
            RedisCommand::Write(WriteCommand::SUnionStore) => Arity::AtLeast(2),
            RedisCommand::Read(ReadCommand::BitCount) => Arity::AtLeast(1),
            RedisCommand::Read(ReadCommand::DbSize) => Arity::Fixed(0),
            RedisCommand::Read(ReadCommand::Exists) => Arity::AtLeast(1),
            RedisCommand::Read(ReadCommand::Get) => Arity::Fixed(1),
            RedisCommand::Read(ReadCommand::GetBit) => Arity::Fixed(2),
            RedisCommand::Read(ReadCommand::GetRange) => Arity::Fixed(3),
            RedisCommand::Read(ReadCommand::HExists) => Arity::Fixed(2),
            RedisCommand::Read(ReadCommand::HGet) => Arity::Fixed(2),
            RedisCommand::Read(ReadCommand::HGetAll) => Arity::Fixed(1),
            RedisCommand::Read(ReadCommand::HKeys) => Arity::Fixed(1),
            RedisCommand::Read(ReadCommand::HLen) => Arity::Fixed(1),
            RedisCommand::Read(ReadCommand::HMGet) => Arity::AtLeast(2),
            RedisCommand::Read(ReadCommand::HStrLen) => Arity::Fixed(2),
            RedisCommand::Read(ReadCommand::HVals) => Arity::Fixed(1),
            RedisCommand::Read(ReadCommand::Keys) => Arity::Fixed(1),
            RedisCommand::Read(ReadCommand::LIndex) => Arity::Fixed(2),
            RedisCommand::Read(ReadCommand::LLen) => Arity::Fixed(1),
            RedisCommand::Read(ReadCommand::LRange) => Arity::Fixed(3),
            RedisCommand::Read(ReadCommand::MGet) => Arity::AtLeast(1),
            RedisCommand::Read(ReadCommand::SCard) => Arity::Fixed(1),
            RedisCommand::Read(ReadCommand::SDiff) => Arity::AtLeast(1),
            RedisCommand::Read(ReadCommand::SInter) => Arity::AtLeast(1),
            RedisCommand::Read(ReadCommand::SIsMember) => Arity::Fixed(2),
            RedisCommand::Read(ReadCommand::SMembers) => Arity::Fixed(1),
            RedisCommand::Read(ReadCommand::SMIsMember) => Arity::AtLeast(2),
            RedisCommand::Read(ReadCommand::StrLen) => Arity::Fixed(1),
            RedisCommand::Read(ReadCommand::SubStr) => Arity::Fixed(3),
            RedisCommand::Read(ReadCommand::SUnion) => Arity::AtLeast(1),
            RedisCommand::Read(ReadCommand::Type) => Arity::Fixed(1),
            RedisCommand::Stateless(StatelessCommand::Echo) => Arity::Fixed(1),
            RedisCommand::Stateless(StatelessCommand::Ping) => Arity::AtLeast(0),
            RedisCommand::Stateless(StatelessCommand::Time) => Arity::Fixed(0),
            RedisCommand::System(SystemCommand::Cluster) => Arity::AtLeast(1),
            RedisCommand::System(SystemCommand::Info) => Arity::AtLeast(0),
            RedisCommand::System(SystemCommand::PSubscribe) => Arity::AtLeast(1),
            RedisCommand::System(SystemCommand::Publish) => Arity::Fixed(2),
            RedisCommand::System(SystemCommand::PubSub) => Arity::AtLeast(1),
            RedisCommand::System(SystemCommand::PUnsubscribe) => Arity::AtLeast(0),
            RedisCommand::System(SystemCommand::ReadOnly) => Arity::Fixed(0),
            RedisCommand::System(SystemCommand::ReadWrite) => Arity::Fixed(0),
            RedisCommand::System(SystemCommand::Select) => Arity::Fixed(1),
            RedisCommand::System(SystemCommand::Shutdown) => Arity::AtLeast(0),
            RedisCommand::System(SystemCommand::Subscribe) => Arity::AtLeast(1),
            RedisCommand::System(SystemCommand::Unsubscribe) => Arity::AtLeast(0),
            RedisCommand::Transaction(TransactionCommand::Discard) => Arity::Fixed(0),
            RedisCommand::Transaction(TransactionCommand::Exec) => Arity::Fixed(0),
            RedisCommand::Transaction(TransactionCommand::Multi) => Arity::Fixed(0),
        }
    }
}

/// A byte uppercased, ASCII-wise.
pub open spec fn upper_byte(c: u8) -> u8 {
    if 97 <= c <= 122 {
        (c - 32) as u8
    } else {
        c
    }
}

/// A name uppercased, ASCII-wise.
pub open spec fn upper_bytes(s: Seq<u8>) -> Seq<u8> {
    s.map_values(|c: u8| upper_byte(c))
}

/// The ASCII-uppercase copy of a name.
pub fn to_upper(name: &Vec<u8>) -> (r: Vec<u8>)
    ensures
        r@ == upper_bytes(name@),
{
    let len: usize = name.len();
    let mut out: Vec<u8> = Vec::new();
    let mut i: usize = 0;
    proof {
        assert(out@ =~= upper_bytes(name@).take(0));
    }
    while i < len
        invariant
            i <= len == name@.len(),
            out@ == upper_bytes(name@).take(i as int),
        decreases len - i,
    {
        let c: u8 = name[i];
        let u: u8 = if c >= 97 && c <= 122 {
            c - 32
        } else {
            c
        };
        out.push(u);
        proof {
            assert(out@ =~= upper_bytes(name@).take(i + 1));
        }
        i = i + 1;
    }
    proof {
        assert(out@ =~= upper_bytes(name@));
    }
    out
}

/// Whether the bytes spell exactly the given name.
pub fn name_eq(v: &Vec<u8>, s: &str) -> (r: bool)
    ensures
        r == (v@ == s.spec_bytes()),
{
    let b = s.as_bytes();
    let blen: usize = b.len();
    if v.len() != blen {
        proof {
            assert(v@ != s.spec_bytes());
        }
        return false;
    }
    let mut i: usize = 0;
    while i < blen
        invariant
            i <= blen == b@.len() == v@.len(),
            b@ == s.spec_bytes(),
            forall|j: int| 0 <= j < i ==> v@[j] == b@[j],
        decreases blen - i,
    {
        if v[i] != b[i] {
            return false;
        }
        i = i + 1;
    }
    proof {
        assert(v@ =~= b@);
    }
    true
}

impl RedisCommand {
    /// Looks the name up in the table, case-insensitively. An unknown
    /// name is the unknown-command error carrying the name as given.
    #[verifier::rlimit(100)]
    pub fn try_from(name: &Vec<u8>) -> (r: Result<RedisCommand, RedisError>)
        ensures
            match r {
                Ok(c) => command_name(c) == upper_bytes(name@),
                Err(e) => (forall|c: RedisCommand| command_name(c) != upper_bytes(name@)) && match e {
                    RedisError::Response(ResponseError::UnknownCommand(n)) => n@ == name@,
                    _ => false,
                },
            },
    {
        let up = to_upper(name);
        if name_eq(&up, "APPEND") {
            return Ok(RedisCommand::Write(WriteCommand::Append));
        }
        if name_eq(&up, "BITOP") {
            return Ok(RedisCommand::Write(WriteCommand::BitOp));
        }
        if name_eq(&up, "DECR") {
            return Ok(RedisCommand::Write(WriteCommand::Decr));
        }
        if name_eq(&up, "DECRBY") {
            return Ok(RedisCommand::Write(WriteCommand::DecrBy));
        }
        if name_eq(&up, "DEL") {
            return Ok(RedisCommand::Write(WriteCommand::Del));
        }
        if name_eq(&up, "FLUSHALL") {
            return Ok(RedisCommand::Write(WriteCommand::FlushAll));
        }
        if name_eq(&up, "FLUSHDB") {
            return Ok(RedisCommand::Write(WriteCommand::FlushDb));
        }
        if name_eq(&up, "GETDEL") {
            return Ok(RedisCommand::Write(WriteCommand::GetDel));
        }
        if name_eq(&up, "GETSET") {
            return Ok(RedisCommand::Write(WriteCommand::GetSet));
        }
        if name_eq(&up, "HDEL") {
            return Ok(RedisCommand::Write(WriteCommand::HDel));
        }
        if name_eq(&up, "HINCRBY") {
            return Ok(RedisCommand::Write(WriteCommand::HIncrBy));
        }
        if name_eq(&up, "HMSET") {
            return Ok(RedisCommand::Write(WriteCommand::HMSet));
        }
        if name_eq(&up, "HSET") {
            return Ok(RedisCommand::Write(WriteCommand::HSet));
        }
        if name_eq(&up, "HSETNX") {
            return Ok(RedisCommand::Write(WriteCommand::HSetNx));
        }
        if name_eq(&up, "INCR") {
            return Ok(RedisCommand::Write(WriteCommand::Incr));
        }
        if name_eq(&up, "INCRBY") {
            return Ok(RedisCommand::Write(WriteCommand::IncrBy));
        }
        if name_eq(&up, "LPOP") {
            return Ok(RedisCommand::Write(WriteCommand::LPop));
        }
        if name_eq(&up, "LPUSH") {
            return Ok(RedisCommand::Write(WriteCommand::LPush));
        }
        if name_eq(&up, "LPUSHX") {
            return Ok(RedisCommand::Write(WriteCommand::LPushX));
        }
        if name_eq(&up, "LSET") {
            return Ok(RedisCommand::Write(WriteCommand::LSet));
        }
        if name_eq(&up, "LTRIM") {
            return Ok(RedisCommand::Write(WriteCommand::LTrim));
        }
        if name_eq(&up, "MSET") {
            return Ok(RedisCommand::Write(WriteCommand::MSet));
        }
        if name_eq(&up, "MSETNX") {
            return Ok(RedisCommand::Write(WriteCommand::MSetNx));
        }
        if name_eq(&up, "RENAME") {
            return Ok(RedisCommand::Write(WriteCommand::Rename));
        }
        if name_eq(&up, "RENAMENX") {
            return Ok(RedisCommand::Write(WriteCommand::RenameNx));
        }
        if name_eq(&up, "RPOP") {
            return Ok(RedisCommand::Write(WriteCommand::RPop));
        }
        if name_eq(&up, "RPOPLPUSH") {
            return Ok(RedisCommand::Write(WriteCommand::RPopLPush));
        }
        if name_eq(&up, "RPUSH") {
            return Ok(RedisCommand::Write(WriteCommand::RPush));
        }
        if name_eq(&up, "RPUSHX") {
            return Ok(RedisCommand::Write(WriteCommand::RPushX));
        }
        if name_eq(&up, "SADD") {
            return Ok(RedisCommand::Write(WriteCommand::SAdd));
        }
        if name_eq(&up, "SDIFFSTORE") {
            return Ok(RedisCommand::Write(WriteCommand::SDiffStore));
        }
        if name_eq(&up, "SET") {
            return Ok(RedisCommand::Write(WriteCommand::SetCmd));
        }
        if name_eq(&up, "SETBIT") {
            return Ok(RedisCommand::Write(WriteCommand::SetBit));
        }
        if name_eq(&up, "SETNX") {
            return Ok(RedisCommand::Write(WriteCommand::SetNx));
        }
        if name_eq(&up, "SETRANGE") {
            return Ok(RedisCommand::Write(WriteCommand::SetRange));
        }
        if name_eq(&up, "SINTERSTORE") {
            return Ok(RedisCommand::Write(WriteCommand::SInterStore));
        }
        if name_eq(&up, "SMOVE") {
            return Ok(RedisCommand::Write(WriteCommand::SMove));
        }
        if name_eq(&up, "SREM") {
            return Ok(RedisCommand::Write(WriteCommand::SRem));
        }
        if name_eq(&up, "SUNIONSTORE") {
            return Ok(RedisCommand::Write(WriteCommand::SUnionStore));
        }
        if name_eq(&up, "BITCOUNT") {
            return Ok(RedisCommand::Read(ReadCommand::BitCount));
        }
        if name_eq(&up, "DBSIZE") {
            return Ok(RedisCommand::Read(ReadCommand::DbSize));
        }
        if name_eq(&up, "EXISTS") {
            return Ok(RedisCommand::Read(ReadCommand::Exists));
        }
        if name_eq(&up, "GET") {
            return Ok(RedisCommand::Read(ReadCommand::Get));
        }
        if name_eq(&up, "GETBIT") {
            return Ok(RedisCommand::Read(ReadCommand::GetBit));
        }
        if name_eq(&up, "GETRANGE") {
            return Ok(RedisCommand::Read(ReadCommand::GetRange));
        }
        if name_eq(&up, "HEXISTS") {
            return Ok(RedisCommand::Read(ReadCommand::HExists));
        }
        if name_eq(&up, "HGET") {
            return Ok(RedisCommand::Read(ReadCommand::HGet));
        }
        if name_eq(&up, "HGETALL") {
            return Ok(RedisCommand::Read(ReadCommand::HGetAll));
        }
        if name_eq(&up, "HKEYS") {
            return Ok(RedisCommand::Read(ReadCommand::HKeys));
        }
        if name_eq(&up, "HLEN") {
            return Ok(RedisCommand::Read(ReadCommand::HLen));
        }
        if name_eq(&up, "HMGET") {
            return Ok(RedisCommand::Read(ReadCommand::HMGet));
        }
        if name_eq(&up, "HSTRLEN") {
            return Ok(RedisCommand::Read(ReadCommand::HStrLen));
        }
        if name_eq(&up, "HVALS") {
            return Ok(RedisCommand::Read(ReadCommand::HVals));
        }
        if name_eq(&up, "KEYS") {
            return Ok(RedisCommand::Read(ReadCommand::Keys));
        }
        if name_eq(&up, "LINDEX") {
            return Ok(RedisCommand::Read(ReadCommand::LIndex));
        }
        if name_eq(&up, "LLEN") {
            return Ok(RedisCommand::Read(ReadCommand::LLen));
        }
        if name_eq(&up, "LRANGE") {
            return Ok(RedisCommand::Read(ReadCommand::LRange));
        }
        if name_eq(&up, "MGET") {
            return Ok(RedisCommand::Read(ReadCommand::MGet));
        }
        if name_eq(&up, "SCARD") {
            return Ok(RedisCommand::Read(ReadCommand::SCard));
        }
        if name_eq(&up, "SDIFF") {
            return Ok(RedisCommand::Read(ReadCommand::SDiff));
        }
        if name_eq(&up, "SINTER") {
            return Ok(RedisCommand::Read(ReadCommand::SInter));
        }
        if name_eq(&up, "SISMEMBER") {
            return Ok(RedisCommand::Read(ReadCommand::SIsMember));
        }
        if name_eq(&up, "SMEMBERS") {
            return Ok(RedisCommand::Read(ReadCommand::SMembers));
        }
        if name_eq(&up, "SMISMEMBER") {
            return Ok(RedisCommand::Read(ReadCommand::SMIsMember));
        }
        if name_eq(&up, "STRLEN") {
            return Ok(RedisCommand::Read(ReadCommand::StrLen));
        }
        if name_eq(&up, "SUBSTR") {
            return Ok(RedisCommand::Read(ReadCommand::SubStr));
        }
        if name_eq(&up, "SUNION") {
            return Ok(RedisCommand::Read(ReadCommand::SUnion));
        }
        if name_eq(&up, "TYPE") {
            return Ok(RedisCommand::Read(ReadCommand::Type));
        }
        if name_eq(&up, "ECHO") {
            return Ok(RedisCommand::Stateless(StatelessCommand::Echo));
        }
        if name_eq(&up, "PING") {
            return Ok(RedisCommand::Stateless(StatelessCommand::Ping));
        }
        if name_eq(&up, "TIME") {
            return Ok(RedisCommand::Stateless(StatelessCommand::Time));
        }
        if name_eq(&up, "CLUSTER") {
            return Ok(RedisCommand::System(SystemCommand::Cluster));
        }
        if name_eq(&up, "INFO") {
            return Ok(RedisCommand::System(SystemCommand::Info));
        }
        if name_eq(&up, "PSUBSCRIBE") {
            return Ok(RedisCommand::System(SystemCommand::PSubscribe));
        }
        if name_eq(&up, "PUBLISH") {
            return Ok(RedisCommand::System(SystemCommand::Publish));
        }
        if name_eq(&up, "PUBSUB") {
            return Ok(RedisCommand::System(SystemCommand::PubSub));
        }
        if name_eq(&up, "PUNSUBSCRIBE") {
            return Ok(RedisCommand::System(SystemCommand::PUnsubscribe));
        }
        if name_eq(&up, "READONLY") {
            return Ok(RedisCommand::System(SystemCommand::ReadOnly));
        }
        if name_eq(&up, "READWRITE") {
            return Ok(RedisCommand::System(SystemCommand::ReadWrite));
        }
        if name_eq(&up, "SELECT") {
            return Ok(RedisCommand::System(SystemCommand::Select));
        }
        if name_eq(&up, "SHUTDOWN") {
            return Ok(RedisCommand::System(SystemCommand::Shutdown));
        }
        if name_eq(&up, "SUBSCRIBE") {
            return Ok(RedisCommand::System(SystemCommand::Subscribe));
        }
        if name_eq(&up, "UNSUBSCRIBE") {
            return Ok(RedisCommand::System(SystemCommand::Unsubscribe));
        }
        if name_eq(&up, "DISCARD") {
            return Ok(RedisCommand::Transaction(TransactionCommand::Discard));
        }
        if name_eq(&up, "EXEC") {
            return Ok(RedisCommand::Transaction(TransactionCommand::Exec));
        }
        if name_eq(&up, "MULTI") {
            return Ok(RedisCommand::Transaction(TransactionCommand::Multi));
        }
        Err(RedisError::Response(ResponseError::UnknownCommand(copy_bytes(name))))
    }
}

impl RedisCommand {
    /// The wire name of this command, as the table spells it.
    pub fn name_of(&self) -> (r: Vec<u8>)
        ensures
            r@ == command_name(*self),
    {
        let mut out: Vec<u8> = Vec::new();
        match self {
            RedisCommand::Write(WriteCommand::Append) => {
                crate::redis::error::push_str_bytes(&mut out, "APPEND");
            },
            RedisCommand::Write(WriteCommand::BitOp) => {
                crate::redis::error::push_str_bytes(&mut out, "BITOP");
            },
            RedisCommand::Write(WriteCommand::Decr) => {
                crate::redis::error::push_str_bytes(&mut out, "DECR");
            },
            RedisCommand::Write(WriteCommand::DecrBy) => {
                crate::redis::error::push_str_bytes(&mut out, "DECRBY");
            },
            RedisCommand::Write(WriteCommand::Del) => {
                crate::redis::error::push_str_bytes(&mut out, "DEL");
            },
            RedisCommand::Write(WriteCommand::FlushAll) => {
                crate::redis::error::push_str_bytes(&mut out, "FLUSHALL");
            },
            RedisCommand::Write(WriteCommand::FlushDb) => {
                crate::redis::error::push_str_bytes(&mut out, "FLUSHDB");
            },
            RedisCommand::Write(WriteCommand::GetDel) => {
                crate::redis::error::push_str_bytes(&mut out, "GETDEL");
            },
            RedisCommand::Write(WriteCommand::GetSet) => {
                crate::redis::error::push_str_bytes(&mut out, "GETSET");
            },
            RedisCommand::Write(WriteCommand::HDel) => {
                crate::redis::error::push_str_bytes(&mut out, "HDEL");
            },
            RedisCommand::Write(WriteCommand::HIncrBy) => {
                crate::redis::error::push_str_bytes(&mut out, "HINCRBY");
            },
            RedisCommand::Write(WriteCommand::HMSet) => {
                crate::redis::error::push_str_bytes(&mut out, "HMSET");
            },
            RedisCommand::Write(WriteCommand::HSet) => {
                crate::redis::error::push_str_bytes(&mut out, "HSET");
            },
            RedisCommand::Write(WriteCommand::HSetNx) => {
                crate::redis::error::push_str_bytes(&mut out, "HSETNX");
            },
            RedisCommand::Write(WriteCommand::Incr) => {
                crate::redis::error::push_str_bytes(&mut out, "INCR");
            },
            RedisCommand::Write(WriteCommand::IncrBy) => {
                crate::redis::error::push_str_bytes(&mut out, "INCRBY");
            },
            RedisCommand::Write(WriteCommand::LPop) => {
                crate::redis::error::push_str_bytes(&mut out, "LPOP");
            },
            RedisCommand::Write(WriteCommand::LPush) => {
                crate::redis::error::push_str_bytes(&mut out, "LPUSH");
            },
            RedisCommand::Write(WriteCommand::LPushX) => {
                crate::redis::error::push_str_bytes(&mut out, "LPUSHX");
            },
            RedisCommand::Write(WriteCommand::LSet) => {
                crate::redis::error::push_str_bytes(&mut out, "LSET");
            },
            RedisCommand::Write(WriteCommand::LTrim) => {
                crate::redis::error::push_str_bytes(&mut out, "LTRIM");
            },
            RedisCommand::Write(WriteCommand::MSet) => {
                crate::redis::error::push_str_bytes(&mut out, "MSET");
            },
            RedisCommand::Write(WriteCommand::MSetNx) => {
                crate::redis::error::push_str_bytes(&mut out, "MSETNX");
            },
            RedisCommand::Write(WriteCommand::Rename) => {
                crate::redis::error::push_str_bytes(&mut out, "RENAME");
            },
            RedisCommand::Write(WriteCommand::RenameNx) => {
                crate::redis::error::push_str_bytes(&mut out, "RENAMENX");
            },
            RedisCommand::Write(WriteCommand::RPop) => {
                crate::redis::error::push_str_bytes(&mut out, "RPOP");
            },
            RedisCommand::Write(WriteCommand::RPopLPush) => {
                crate::redis::error::push_str_bytes(&mut out, "RPOPLPUSH");
            },
            RedisCommand::Write(WriteCommand::RPush) => {
                crate::redis::error::push_str_bytes(&mut out, "RPUSH");
            },
            RedisCommand::Write(WriteCommand::RPushX) => {
                crate::redis::error::push_str_bytes(&mut out, "RPUSHX");
            },
            RedisCommand::Write(WriteCommand::SAdd) => {
                crate::redis::error::push_str_bytes(&mut out, "SADD");
            },
            RedisCommand::Write(WriteCommand::SDiffStore) => {
                crate::redis::error::push_str_bytes(&mut out, "SDIFFSTORE");
            },
            RedisCommand::Write(WriteCommand::SetCmd) => {
                crate::redis::error::push_str_bytes(&mut out, "SET");
            },
            RedisCommand::Write(WriteCommand::SetBit) => {
                crate::redis::error::push_str_bytes(&mut out, "SETBIT");
            },
            RedisCommand::Write(WriteCommand::SetNx) => {
                crate::redis::error::push_str_bytes(&mut out, "SETNX");
            },
            RedisCommand::Write(WriteCommand::SetRange) => {
                crate::redis::error::push_str_bytes(&mut out, "SETRANGE");
            },
            RedisCommand::Write(WriteCommand::SInterStore) => {
                crate::redis::error::push_str_bytes(&mut out, "SINTERSTORE");
            },
            RedisCommand::Write(WriteCommand::SMove) => {
                crate::redis::error::push_str_bytes(&mut out, "SMOVE");
            },
            RedisCommand::Write(WriteCommand::SRem) => {
                crate::redis::error::push_str_bytes(&mut out, "SREM");
            },
            RedisCommand::Write(WriteCommand::SUnionStore) => {
                crate::redis::error::push_str_bytes(&mut out, "SUNIONSTORE");
            },
            RedisCommand::Read(ReadCommand::BitCount) => {
                crate::redis::error::push_str_bytes(&mut out, "BITCOUNT");
            },
            RedisCommand::Read(ReadCommand::DbSize) => {
                crate::redis::error::push_str_bytes(&mut out, "DBSIZE");
            },
            RedisCommand::Read(ReadCommand::Exists) => {
                crate::redis::error::push_str_bytes(&mut out, "EXISTS");
            },
            RedisCommand::Read(ReadCommand::Get) => {
                crate::redis::error::push_str_bytes(&mut out, "GET");
            },
            RedisCommand::Read(ReadCommand::GetBit) => {
                crate::redis::error::push_str_bytes(&mut out, "GETBIT");
            },
            RedisCommand::Read(ReadCommand::GetRange) => {
                crate::redis::error::push_str_bytes(&mut out, "GETRANGE");
            },
            RedisCommand::Read(ReadCommand::HExists) => {
                crate::redis::error::push_str_bytes(&mut out, "HEXISTS");
            },
            RedisCommand::Read(ReadCommand::HGet) => {
                crate::redis::error::push_str_bytes(&mut out, "HGET");
            },
            RedisCommand::Read(ReadCommand::HGetAll) => {
                crate::redis::error::push_str_bytes(&mut out, "HGETALL");
            },
            RedisCommand::Read(ReadCommand::HKeys) => {
                crate::redis::error::push_str_bytes(&mut out, "HKEYS");
            },
            RedisCommand::Read(ReadCommand::HLen) => {
                crate::redis::error::push_str_bytes(&mut out, "HLEN");
            },
            RedisCommand::Read(ReadCommand::HMGet) => {
                crate::redis::error::push_str_bytes(&mut out, "HMGET");
            },
            RedisCommand::Read(ReadCommand::HStrLen) => {
                crate::redis::error::push_str_bytes(&mut out, "HSTRLEN");
            },
            RedisCommand::Read(ReadCommand::HVals) => {
                crate::redis::error::push_str_bytes(&mut out, "HVALS");
            },
            RedisCommand::Read(ReadCommand::Keys) => {
                crate::redis::error::push_str_bytes(&mut out, "KEYS");
            },
            RedisCommand::Read(ReadCommand::LIndex) => {
                crate::redis::error::push_str_bytes(&mut out, "LINDEX");
            },
            RedisCommand::Read(ReadCommand::LLen) => {
                crate::redis::error::push_str_bytes(&mut out, "LLEN");
            },
            RedisCommand::Read(ReadCommand::LRange) => {
                crate::redis::error::push_str_bytes(&mut out, "LRANGE");
            },
            RedisCommand::Read(ReadCommand::MGet) => {
                crate::redis::error::push_str_bytes(&mut out, "MGET");
            },
            RedisCommand::Read(ReadCommand::SCard) => {
                crate::redis::error::push_str_bytes(&mut out, "SCARD");
            },
            RedisCommand::Read(ReadCommand::SDiff) => {
                crate::redis::error::push_str_bytes(&mut out, "SDIFF");
            },
            RedisCommand::Read(ReadCommand::SInter) => {
                crate::redis::error::push_str_bytes(&mut out, "SINTER");
            },
            RedisCommand::Read(ReadCommand::SIsMember) => {
                crate::redis::error::push_str_bytes(&mut out, "SISMEMBER");
            },
            RedisCommand::Read(ReadCommand::SMembers) => {
                crate::redis::error::push_str_bytes(&mut out, "SMEMBERS");
            },
            RedisCommand::Read(ReadCommand::SMIsMember) => {
                crate::redis::error::push_str_bytes(&mut out, "SMISMEMBER");
            },
            RedisCommand::Read(ReadCommand::StrLen) => {
                crate::redis::error::push_str_bytes(&mut out, "STRLEN");
            },
            RedisCommand::Read(ReadCommand::SubStr) => {
                crate::redis::error::push_str_bytes(&mut out, "SUBSTR");
            },
            RedisCommand::Read(ReadCommand::SUnion) => {
                crate::redis::error::push_str_bytes(&mut out, "SUNION");
            },
            RedisCommand::Read(ReadCommand::Type) => {
                crate::redis::error::push_str_bytes(&mut out, "TYPE");
            },
            RedisCommand::Stateless(StatelessCommand::Echo) => {
                crate::redis::error::push_str_bytes(&mut out, "ECHO");
            },
            RedisCommand::Stateless(StatelessCommand::Ping) => {
                crate::redis::error::push_str_bytes(&mut out, "PING");
            },
            RedisCommand::Stateless(StatelessCommand::Time) => {
                crate::redis::error::push_str_bytes(&mut out, "TIME");
            },
            RedisCommand::System(SystemCommand::Cluster) => {
                crate::redis::error::push_str_bytes(&mut out, "CLUSTER");
            },
            RedisCommand::System(SystemCommand::Info) => {
                crate::redis::error::push_str_bytes(&mut out, "INFO");
            },
            RedisCommand::System(SystemCommand::PSubscribe) => {
                crate::redis::error::push_str_bytes(&mut out, "PSUBSCRIBE");
            },
            RedisCommand::System(SystemCommand::Publish) => {
                crate::redis::error::push_str_bytes(&mut out, "PUBLISH");
            },
            RedisCommand::System(SystemCommand::PubSub) => {
                crate::redis::error::push_str_bytes(&mut out, "PUBSUB");
            },
            RedisCommand::System(SystemCommand::PUnsubscribe) => {
                crate::redis::error::push_str_bytes(&mut out, "PUNSUBSCRIBE");
            },
            RedisCommand::System(SystemCommand::ReadOnly) => {
                crate::redis::error::push_str_bytes(&mut out, "READONLY");
            },
            RedisCommand::System(SystemCommand::ReadWrite) => {
                crate::redis::error::push_str_bytes(&mut out, "READWRITE");
            },
            RedisCommand::System(SystemCommand::Select) => {
                crate::redis::error::push_str_bytes(&mut out, "SELECT");
            },
            RedisCommand::System(SystemCommand::Shutdown) => {
                crate::redis::error::push_str_bytes(&mut out, "SHUTDOWN");
            },
            RedisCommand::System(SystemCommand::Subscribe) => {
                crate::redis::error::push_str_bytes(&mut out, "SUBSCRIBE");
            },
            RedisCommand::System(SystemCommand::Unsubscribe) => {
                crate::redis::error::push_str_bytes(&mut out, "UNSUBSCRIBE");
            },
            RedisCommand::Transaction(TransactionCommand::Discard) => {
                crate::redis::error::push_str_bytes(&mut out, "DISCARD");
            },
            RedisCommand::Transaction(TransactionCommand::Exec) => {
                crate::redis::error::push_str_bytes(&mut out, "EXEC");
            },
            RedisCommand::Transaction(TransactionCommand::Multi) => {
                crate::redis::error::push_str_bytes(&mut out, "MULTI");
            },
        }
        out
    }
}

} // verus!