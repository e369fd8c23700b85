//! The error vocabulary of the command surface, with the exact bytes
//! each error puts on the wire after the `-` marker.

use vstd::prelude::*;
use vstd::string::StringSliceAdditionalSpecFns;
use crate::numbers::{dec_digits, push_dec_u64};
use crate::redis::resp::ProtocolError;

verus! {

/// Per-command errors surfaced to the client under the `ERR` prefix.
#[derive(Debug, Clone, PartialEq, Eq)]
pub enum ResponseError {
    ProtocolError(ProtocolError),
    UnknownCommand(Vec<u8>),
    UnknownSubcommand(Vec<u8>),
    SyntaxError,
    WrongArity,
    NotInteger,
    ValueOutOfRange,
    IndexOutOfRange,
    NoKey,
    Other(Vec<u8>),
}

/// Everything a command can answer with instead of a value.
#[derive(Debug, Clone, PartialEq, Eq)]
pub enum RedisError {
    Response(ResponseError),
    WrongType,
    ExecAbort,
    Moved { slot: u16, host: Vec<u8>, port: u16 },
    ClusterDown(Vec<u8>),
}

/// The wire text of a protocol error.
pub open spec fn protocol_error_bytes(e: ProtocolError) -> Seq<u8> {
    match e {
        ProtocolError::InvalidMultibulkLength => "invalid multibulk length".spec_bytes(),
        ProtocolError::InvalidBulkLength => "invalid bulk length".spec_bytes(),
        ProtocolError::UnexpectedByte { expected, got } => "expected '".spec_bytes() + seq![
            expected,
        ] + "', got '".spec_bytes() + seq![got] + "'".spec_bytes(),
        ProtocolError::UnbalancedQuotes => "unbalanced quotes in request".spec_bytes(),
    }
}

/// The wire text of a per-command error, prefix excluded.
pub open spec fn response_error_bytes(e: ResponseError) -> Seq<u8> {
    match e {
        ResponseError::ProtocolError(p) => "Protocol error: ".spec_bytes() + protocol_error_bytes(
            p,
        ),
        ResponseError::UnknownCommand(name) => "unknown command '".spec_bytes() + (if name@.len()
            <= 128 {
            name@
        } else {
            name@.take(128)
        }) + "'".spec_bytes(),
        ResponseError::UnknownSubcommand(name) => "unknown subcommand '".spec_bytes() + (
        if name@.len() <= 128 {
            name@
        } else {
            name@.take(128)
        }) + "'".spec_bytes(),
        ResponseError::SyntaxError => "syntax error".spec_bytes(),
        ResponseError::WrongArity => "wrong number of arguments".spec_bytes(),
        ResponseError::NotInteger => "value is not an integer or out of range".spec_bytes(),
        ResponseError::ValueOutOfRange => "value is out of range".spec_bytes(),
        ResponseError::IndexOutOfRange => "index out of range".spec_bytes(),
        ResponseError::NoKey => "no such key".spec_bytes(),
        ResponseError::Other(m) => m@,
    }
}

/// The whole error line as the client sees it, without the leading
/// `-` and trailing line break.
pub open spec fn redis_error_bytes(e: RedisError) -> Seq<u8> {
    match e {
        RedisError::Response(r) => "ERR ".spec_bytes() + response_error_bytes(r),
        RedisError::WrongType => "WRONGTYPE Operation against a key holding the wrong kind of value".spec_bytes(),
        RedisError::ExecAbort => "EXECABORT Transaction discarded because of previous errors.".spec_bytes(),
        RedisError::Moved { slot, host, port } => "MOVED ".spec_bytes() + dec_digits(slot as nat)
            + " ".spec_bytes() + host@ + ":".spec_bytes() + dec_digits(port as nat),
        RedisError::ClusterDown(m) => "CLUSTERDOWN ".spec_bytes() + m@,
    }
}

/// Appends the bytes of a string constant.
pub fn push_str_bytes(out: &mut Vec<u8>, s: &str)
    ensures
        final(out)@ == old(out)@ + s.spec_bytes(),
{
    let b = s.as_bytes();
    let len: usize = b.len();
    let mut i: usize = 0;
    proof {
        assert(out@ =~= old(out)@ + b@.take(0));
    }
    while i < len
        invariant
            i <= len == b@.len(),
            b@ == s.spec_bytes(),
            out@ == old(out)@ + b@.take(i as int),
        decreases len - i,
    {
        let x: u8 = b[i];
        out.push(x);
        proof {
            assert(out@ =~= old(out)@ + b@.take(i + 1));
        }
        i = i + 1;
    }
    proof {
        assert(out@ =~= old(out)@ + b@);
    }
}

impl ProtocolError {
    /// The wire text of this error.
    pub fn message_bytes(&self) -> (r: Vec<u8>)
        ensures
            r@ == protocol_error_bytes(*self),
    {
        let mut out: Vec<u8> = Vec::new();
        match self {
            ProtocolError::InvalidMultibulkLength => {
                push_str_bytes(&mut out, "invalid multibulk length");
            },
            ProtocolError::InvalidBulkLength => {
                push_str_bytes(&mut out, "invalid bulk length");
            },
            ProtocolError::UnexpectedByte { expected, got } => {
                push_str_bytes(&mut out, "expected '");
                out.push(*expected);
                push_str_bytes(&mut out, "', got '");
                out.push(*got);
                push_str_bytes(&mut out, "'");
                proof {
                    assert(out@ =~= protocol_error_bytes(*self));
                }
            },
            ProtocolError::UnbalancedQuotes => {
                push_str_bytes(&mut out, "unbalanced quotes in request");
            },
        }
        out
    }
}

impl ResponseError {
    /// The wire text of this error, prefix excluded.
    pub fn message_bytes(&self) -> (r: Vec<u8>)
        ensures
            r@ == response_error_bytes(*self),
    {
        let mut out: Vec<u8> = Vec::new();
        match self {
            ResponseError::ProtocolError(p) => {
                push_str_bytes(&mut out, "Protocol error: ");
                let m = p.message_bytes();
                push_bytes(&mut out, &m);
            },
            ResponseError::UnknownCommand(name) => {
                push_str_bytes(&mut out, "unknown command '");
                push_truncated(&mut out, name);
                push_str_bytes(&mut out, "'");
            },
            ResponseError::UnknownSubcommand(name) => {
                push_str_bytes(&mut out, "unknown subcommand '");
                push_truncated(&mut out, name);
                push_str_bytes(&mut out, "'");
            },
            ResponseError::SyntaxError => {
                push_str_bytes(&mut out, "syntax error");
            },
            ResponseError::WrongArity => {
                push_str_bytes(&mut out, "wrong number of arguments");
            },
            ResponseError::NotInteger => {
                push_str_bytes(&mut out, "value is not an integer or out of range");
            },
            ResponseError::ValueOutOfRange => {
                push_str_bytes(&mut out, "value is out of range");
            },
            ResponseError::IndexOutOfRange => {
                push_str_bytes(&mut out, "index out of range");
            },
            ResponseError::NoKey => {
                push_str_bytes(&mut out, "no such key");
            },
            ResponseError::Other(m) => {
                push_bytes(&mut out, m);
            },
        }
        proof {
            assert(out@ =~= response_error_bytes(*self));
        }
        out
    }
}

impl RedisError {
    /// The whole error line, without the leading `-`.
    pub fn message_bytes(&self) -> (r: Vec<u8>)
        ensures
            r@ == redis_error_bytes(*self),
    {
        let mut out: Vec<u8> = Vec::new();
        match self {
            RedisError::Response(e) => {
                push_str_bytes(&mut out, "ERR ");
                let m = e.message_bytes();
                push_bytes(&mut out, &m);
            },
            RedisError::WrongType => {
                push_str_bytes(
                    &mut out,
                    "WRONGTYPE Operation against a key holding the wrong kind of value",
                );
            },
            RedisError::ExecAbort => {
                push_str_bytes(
                    &mut out,
                    "EXECABORT Transaction discarded because of previous errors.",
                );
            },
            RedisError::Moved { slot, host, port } => {
                push_str_bytes(&mut out, "MOVED ");
                push_dec_u64(&mut out, *slot as u64);
                push_str_bytes(&mut out, " ");
                push_bytes(&mut out, host);
                push_str_bytes(&mut out, ":");
                push_dec_u64(&mut out, *port as u64);
            },
            RedisError::ClusterDown(m) => {
                push_str_bytes(&mut out, "CLUSTERDOWN ");
                push_bytes(&mut out, m);
            },
        }
        proof {
            assert(out@ =~= redis_error_bytes(*self));
        }
        out
    }
}

/// Rewrites a not-the-leader answer the way the session shows it to
/// the client: `MOVED` to the leader's address when one is known,
/// `CLUSTERDOWN` otherwise.
pub fn redirect_error(leader: Option<u64>, host: Vec<u8>, port: u16) -> (r: RedisError)
    ensures
        match leader {
            Some(_) => r == (RedisError::Moved { slot: 0, host, port }),
            None => match r {
                RedisError::ClusterDown(m) => m@ == "No leader".spec_bytes(),
                _ => false,
            },
        },
{
    match leader {
        Some(_) => RedisError::Moved { slot: 0, host, port },
        None => {
            let mut m: Vec<u8> = Vec::new();
            push_str_bytes(&mut m, "No leader");
            RedisError::ClusterDown(m)
        },
    }
}

/// Appends all of `src`.
pub fn push_bytes(out: &mut Vec<u8>, src: &Vec<u8>)
    ensures
        final(out)@ == old(out)@ + src@,
{
    let len: usize = src.len();
    let mut i: usize = 0;
    proof {
        assert(out@ =~= old(out)@ + src@.take(0));
    }
    while i < len
        invariant
            i <= len == src@.len(),
            out@ == old(out)@ + src@.take(i as int),
        decreases len - i,
    {
        let x: u8 = src[i];
        out.push(x);
        proof {
            assert(out@ =~= old(out)@ + src@.take(i + 1));
        }
        i = i + 1;
    }
    proof {
        assert(out@ =~= old(out)@ + src@);
    }
}

/// Appends at most the first 128 bytes of `src`, as the unknown-command
/// report does.
pub fn push_truncated(out: &mut Vec<u8>, src: &Vec<u8>)
    ensures
        final(out)@ == old(out)@ + if src@.len() <= 128 {
            src@
        } else {
            src@.take(128)
        },
{
    let len: usize = src.len();
    let cap: usize = if len > 128 {
        128
    } else {
        len
    };
    let mut i: usize = 0;
    proof {
        assert(out@ =~= old(out)@ + src@.take(0));
    }
    while i < cap
        invariant
            i <= cap <= len == src@.len(),
            cap == if len > 128 {
                128int
            } else {
                len as int
            },
            out@ == old(out)@ + src@.take(i as int),
        decreases cap - i,
    {
        let x: u8 = src[i];
        out.push(x);
        proof {
            assert(out@ =~= old(out)@ + src@.take(i + 1));
        }
        i = i + 1;
    }
    proof {
        if len <= 128 {
            assert(out@ =~= old(out)@ + src@);
        }
    }
}

} // verus!
