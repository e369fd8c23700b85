//! The per-connection transaction state machine. Each decoded command
//! maps to exactly one action: an immediate reply, a normal dispatch,
//! or the atomic execution of a queued batch. `MULTI` opens a queue,
//! `EXEC` runs it, `DISCARD` drops it; a parse or arity failure inside
//! an open queue poisons it, and `EXEC` then aborts.

use vstd::prelude::*;
use vstd::string::StringSliceAdditionalSpecFns;
use crate::redis::command::{arity_spec, command_name, upper_bytes, Arity, RedisCommand,
    SystemCommand, TransactionCommand};
use crate::redis::error::{RedisError, ResponseError};
use crate::redis::resp::{RedisResult, Value};
use crate::redis::string::token_views;
use crate::raft::types::copy_bytes;

verus! {

/// One command held back inside an open transaction.
#[derive(Debug, PartialEq, Eq)]
pub struct QueuedCommand {
    pub command: RedisCommand,
    pub args: Vec<Vec<u8>>,
}

/// The mathematical value of a queued command.
pub open spec fn queued_model(q: QueuedCommand) -> (RedisCommand, Seq<Seq<u8>>) {
    (q.command, token_views(q.args@))
}

pub open spec fn queue_model(q: Seq<QueuedCommand>) -> Seq<(RedisCommand, Seq<Seq<u8>>)> {
    q.map_values(|x: QueuedCommand| queued_model(x))
}

/// The transaction state of one connection.
#[derive(Debug, PartialEq, Eq)]
pub enum Transaction {
    Inactive,
    Queued(Vec<QueuedCommand>),
    Error,
}

/// The mathematical value of the transaction state.
pub enum TxnModel {
    Inactive,
    Queued(Seq<(RedisCommand, Seq<Seq<u8>>)>),
    Error,
}

impl View for Transaction {
    type V = TxnModel;

    open spec fn view(&self) -> TxnModel {
        match self {
            Transaction::Inactive => TxnModel::Inactive,
            Transaction::Queued(q) => TxnModel::Queued(queue_model(q@)),
            Transaction::Error => TxnModel::Error,
        }
    }
}

/// What the session asks its surroundings to do with one command.
#[derive(Debug, PartialEq, Eq)]
pub enum SessionOutput {
    /// Answer at once, without touching the store.
    Reply(RedisResult),
    /// Run this one command now.
    Dispatch(RedisCommand, Vec<Vec<u8>>),
    /// Run this whole batch atomically.
    Exec(Vec<QueuedCommand>),
}

/// The state a connection keeps between commands.
#[derive(Debug, PartialEq, Eq)]
pub struct RedisSession {
    pub txn: Transaction,
}

/// An unknown name or a wrong argument count poisons an open queue.
pub open spec fn poisoned(t: TxnModel) -> TxnModel {
    match t {
        TxnModel::Queued(_) => TxnModel::Error,
        _ => t,
    }
}

/// The immediate error reply for a value-shaped error.
pub open spec fn is_reply_err(o: SessionOutput, e: RedisError) -> bool {
    match o {
        SessionOutput::Reply(r) => r == Err::<Value, RedisError>(e),
        _ => false,
    }
}

/// The immediate simple-string reply.
pub open spec fn is_reply_simple(o: SessionOutput, s: Seq<u8>) -> bool {
    match o {
        SessionOutput::Reply(r) => match r {
            Ok(v) => match v {
                Value::SimpleString(b) => b@ == s,
                _ => false,
            },
            _ => false,
        },
        _ => false,
    }
}

/// The immediate free-text error reply of the transaction table.
pub open spec fn is_reply_other(o: SessionOutput, s: Seq<u8>) -> bool {
    match o {
        SessionOutput::Reply(r) => match r {
            Err(e) => match e {
                RedisError::Response(ResponseError::Other(m)) => m@ == s,
                _ => false,
            },
            _ => false,
        },
        _ => false,
    }
}

impl RedisSession {
    pub fn new() -> (r: RedisSession)
        ensures
            r.txn@ is Inactive,
    {
        RedisSession { txn: Transaction::Inactive }
    }

    /// Classifies one decoded command. An unknown name or a wrong
    /// argument count is answered at once and poisons an open queue;
    /// transaction controls drive the queue; system commands may not
    /// stand inside a transaction; everything else is dispatched
    /// directly when no transaction is open and queued when one is.
    pub fn call(&mut self, command: &Vec<u8>, args: &Vec<Vec<u8>>) -> (r: SessionOutput)
        ensures
            ({
                let up = upper_bytes(command@);
                let n = args@.len();
                &&& ((forall|c: RedisCommand| command_name(c) != up) ==> {
                    &&& final(self).txn@ == poisoned(old(self).txn@)
                    &&& match r {
                        SessionOutput::Reply(rr) => match rr {
                            Err(RedisError::Response(ResponseError::UnknownCommand(m))) => m@
                                == command@,
                            _ => false,
                        },
                        _ => false,
                    }
                })
                &&& ((exists|c: RedisCommand| command_name(c) == up) ==> exists|c: RedisCommand|
                    #[trigger] command_name(c) == up && ((!arity_spec(c).admits(n) ==> {
                        &&& final(self).txn@ == poisoned(old(self).txn@)
                        &&& is_reply_err(r, RedisError::Response(ResponseError::WrongArity))
                    }) && (arity_spec(c).admits(n) ==> match c {
                        RedisCommand::Transaction(TransactionCommand::Multi) => match old(
                            self,
                        ).txn@ {
                            TxnModel::Inactive => final(self).txn@ == TxnModel::Queued(
                                Seq::empty(),
                            ) && is_reply_simple(r, "OK".spec_bytes()),
                            _ => final(self).txn@ == old(self).txn@ && is_reply_other(
                                r,
                                "MULTI calls can not be nested".spec_bytes(),
                            ),
                        },
                        RedisCommand::Transaction(TransactionCommand::Exec) => match old(
                            self,
                        ).txn@ {
                            TxnModel::Inactive => final(self).txn@ == TxnModel::Inactive
                                && is_reply_other(r, "EXEC without MULTI".spec_bytes()),
                            TxnModel::Queued(q) => final(self).txn@ == TxnModel::Inactive
                                && match r {
                                SessionOutput::Exec(batch) => queue_model(batch@) == q,
                                _ => false,
                            },
                            TxnModel::Error => final(self).txn@ == TxnModel::Inactive
                                && is_reply_err(r, RedisError::ExecAbort),
                        },
                        RedisCommand::Transaction(TransactionCommand::Discard) => match old(
                            self,
                        ).txn@ {
                            TxnModel::Inactive => final(self).txn@ == TxnModel::Inactive
                                && is_reply_other(r, "DISCARD without MULTI".spec_bytes()),
                            _ => final(self).txn@ == TxnModel::Inactive && is_reply_simple(
                                r,
                                "OK".spec_bytes(),
                            ),
                        },
                        _ => match old(self).txn@ {
                            TxnModel::Inactive => final(self).txn@ == TxnModel::Inactive
                                && match r {
                                SessionOutput::Dispatch(c2, a) => c2 == c && token_views(a@)
                                    == token_views(args@),
                                _ => false,
                            },
                            TxnModel::Queued(q) => if c is System {
                                final(self).txn@ == TxnModel::Error && is_reply_other(
                                    r,
                                    "Command not allowed inside a transaction".spec_bytes(),
                                )
                            } else {
                                final(self).txn@ == TxnModel::Queued(
                                    q.push((c, token_views(args@))),
                                ) && is_reply_simple(r, "QUEUED".spec_bytes())
                            },
                            TxnModel::Error => final(self).txn@ == TxnModel::Error
                                && is_reply_other(
                                r,
                                "Command not allowed inside a transaction".spec_bytes(),
                            ),
                        },
                    })))
            }),
    {
        let parsed = match RedisCommand::try_from(command) {
            Ok(c) => c,
            Err(e) => {
                self.poison();
                return SessionOutput::Reply(Err(e));
            },
        };
        let arity = parsed.arity();
        if !arity.check(args.len()) {
            self.poison();
            return SessionOutput::Reply(
                Err(RedisError::Response(ResponseError::WrongArity)),
            );
        }
        match parsed {
            RedisCommand::Transaction(TransactionCommand::Multi) => match &self.txn {
                Transaction::Inactive => {
                    self.txn = Transaction::Queued(Vec::new());
                    proof {
                        assert(queue_model(Seq::<QueuedCommand>::empty()) =~= Seq::<
                            (RedisCommand, Seq<Seq<u8>>),
                        >::empty());
                        assert(self.txn@ == TxnModel::Queued(
                            Seq::<(RedisCommand, Seq<Seq<u8>>)>::empty(),
                        ));
                    }
                    SessionOutput::Reply(Ok(Value::ok()))
                },
                _ => SessionOutput::Reply(
                    Err(make_other("MULTI calls can not be nested")),
                ),
            },
            RedisCommand::Transaction(TransactionCommand::Exec) => {
                let mut taken = Transaction::Inactive;
                core::mem::swap(&mut self.txn, &mut taken);
                match taken {
                    Transaction::Inactive => SessionOutput::Reply(
                        Err(make_other("EXEC without MULTI")),
                    ),
                    Transaction::Queued(queue) => SessionOutput::Exec(queue),
                    Transaction::Error => SessionOutput::Reply(Err(RedisError::ExecAbort)),
                }
            },
            RedisCommand::Transaction(TransactionCommand::Discard) => {
                let mut taken = Transaction::Inactive;
                core::mem::swap(&mut self.txn, &mut taken);
                match taken {
                    Transaction::Inactive => SessionOutput::Reply(
                        Err(make_other("DISCARD without MULTI")),
                    ),
                    _ => SessionOutput::Reply(Ok(Value::ok())),
                }
            },
            _ => {
                let mut taken = Transaction::Inactive;
                core::mem::swap(&mut self.txn, &mut taken);
                match taken {
                    Transaction::Inactive => {
                        self.txn = Transaction::Inactive;
                        SessionOutput::Dispatch(parsed, copy_args(args))
                    },
                    Transaction::Queued(mut queue) => {
                        if matches!(parsed, RedisCommand::System(_)) {
                            self.txn = Transaction::Error;
                            SessionOutput::Reply(
                                Err(make_other("Command not allowed inside a transaction")),
                            )
                        } else {
                            let ghost q0 = queue_model(queue@);
                            queue.push(QueuedCommand { command: parsed, args: copy_args(args) });
                            proof {
                                assert(queue_model(queue@) =~= q0.push(
                                    (parsed, token_views(args@)),
                                ));
                            }
                            self.txn = Transaction::Queued(queue);
                            let mut s: Vec<u8> = Vec::new();
                            crate::redis::error::push_str_bytes(&mut s, "QUEUED");
                            SessionOutput::Reply(Ok(Value::SimpleString(s)))
                        }
                    },
                    Transaction::Error => {
                        self.txn = Transaction::Error;
                        SessionOutput::Reply(
                            Err(make_other("Command not allowed inside a transaction")),
                        )
                    },
                }
            },
        }
    }

    /// A failed parse or arity check poisons an open queue.
    fn poison(&mut self)
        ensures
            final(self).txn@ == poisoned(old(self).txn@),
    {
        if matches!(self.txn, Transaction::Queued(_)) {
            self.txn = Transaction::Error;
        }
    }
}

/// Builds the free-text errors of the transaction table.
fn make_other(s: &str) -> (r: RedisError)
    ensures
        match r {
            RedisError::Response(e) => match e {
                ResponseError::Other(m) => m@ == s.spec_bytes(),
                _ => false,
            },
            _ => false,
        },
{
    let mut m: Vec<u8> = Vec::new();
    crate::redis::error::push_str_bytes(&mut m, s);
    RedisError::Response(ResponseError::Other(m))
}

/// A fresh copy of the argument vector.
pub fn copy_args(args: &Vec<Vec<u8>>) -> (r: Vec<Vec<u8>>)
    ensures
        token_views(r@) == token_views(args@),
{
    let len: usize = args.len();
    let mut out: Vec<Vec<u8>> = Vec::new();
    let mut i: usize = 0;
    proof {
        assert(token_views(out@) =~= token_views(args@).take(0));
    }
    while i < len
        invariant
            i <= len == args@.len(),
            token_views(out@) == token_views(args@).take(i as int),
        decreases len - i,
    {
        let ghost prev = out@;
        out.push(copy_bytes(&args[i]));
        proof {
            assert(token_views(out@) =~= token_views(prev).push(args@[i as int]@));
            assert(token_views(out@) =~= token_views(args@).take(i + 1));
        }
        i = i + 1;
    }
    proof {
        assert(token_views(out@) =~= token_views(args@));
    }
    out
}

} // verus!
