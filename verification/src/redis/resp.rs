//! RESP framing: the encoder for every reply value, and the decoder
//! for the two request forms, multibulk (`*N` then `$L`-framed bulk
//! strings) and inline (a single line split by the shell-like
//! tokenizer). The decoder consumes nothing while a frame is still
//! incomplete and hands back the argument vector of a complete one.

use vstd::prelude::*;
use vstd::string::*;
use crate::numbers::{dec_digits, dec_int, push_dec_i64, push_dec_u64, parse_unsigned_capped,
    is_signed_decimal, signed_decimal_value, all_digits, digits_value};
use crate::redis::error::{push_bytes, push_str_bytes, redis_error_bytes, RedisError};
use crate::redis::string::{split_args, split_args_spec, token_views};

verus! {

/// A reply value: the nil bulk string, a simple string, a bulk string,
/// an integer, or an array whose members may themselves be errors.
#[derive(Debug, PartialEq, Eq)]
pub enum Value {
    Null,
    SimpleString(Vec<u8>),
    BulkString(Vec<u8>),
    Integer(i64),
    Array(Vec<RedisResult>),
}

pub type RedisResult = Result<Value, RedisError>;

impl Value {
    /// The customary `OK` reply.
    pub fn ok() -> (r: Value)
        ensures
            r == Value::SimpleString(r->SimpleString_0),
            r->SimpleString_0@ == "OK".spec_bytes(),
    {
        let mut s: Vec<u8> = Vec::new();
        push_str_bytes(&mut s, "OK");
        Value::SimpleString(s)
    }
}

/// A malformed request frame.
#[derive(Debug, Clone, Copy, PartialEq, Eq, Structural)]
pub enum ProtocolError {
    InvalidMultibulkLength,
    InvalidBulkLength,
    UnexpectedByte { expected: u8, got: u8 },
    UnbalancedQuotes,
}

/// What can go wrong while framing requests.
#[derive(Debug, Clone, Copy, PartialEq, Eq, Structural)]
pub enum RespError {
    Protocol(ProtocolError),
}

pub open spec fn crlf() -> Seq<u8> {
    seq![13u8, 10u8]
}

/// The wire encoding of a reply, error lines included.
pub open spec fn encode_result_bytes(r: RedisResult) -> Seq<u8>
    decreases r,
{
    match r {
        Ok(v) => match v {
            Value::Null => "$-1".spec_bytes() + crlf(),
            Value::SimpleString(s) => seq![43u8] + s@ + crlf(),
            Value::BulkString(s) => seq![36u8] + dec_digits(s@.len()) + crlf() + s@ + crlf(),
            Value::Integer(i) => seq![58u8] + dec_int(i as int) + crlf(),
            Value::Array(items) => seq![42u8] + dec_digits(items@.len()) + crlf()
                + encode_items_bytes(items@),
        },
        Err(e) => seq![45u8] + redis_error_bytes(e) + crlf(),
    }
}

/// The members of an array, in order.
pub open spec fn encode_items_bytes(items: Seq<RedisResult>) -> Seq<u8>
    decreases items, items.len(),
{
    if items.len() == 0 {
        Seq::empty()
    } else {
        encode_result_bytes(items[0]) + encode_items_bytes(items.skip(1))
    }
}

/// Appends the wire encoding of a reply.
pub fn encode(value: &RedisResult, out: &mut Vec<u8>)
    ensures
        final(out)@ == old(out)@ + encode_result_bytes(*value),
    decreases *value,
{
    match value {
        Ok(v) => match v {
            Value::Null => {
                push_str_bytes(out, "$-1");
                out.push(13);
                out.push(10);
            },
            Value::SimpleString(s) => {
                out.push(43);
                push_bytes(out, s);
                out.push(13);
                out.push(10);
            },
            Value::BulkString(s) => {
                out.push(36);
                push_dec_u64(out, s.len() as u64);
                out.push(13);
                out.push(10);
                push_bytes(out, s);
                out.push(13);
                out.push(10);
            },
            Value::Integer(i) => {
                out.push(58);
                push_dec_i64(out, *i);
                out.push(13);
                out.push(10);
            },
            Value::Array(items) => {
                out.push(42);
                push_dec_u64(out, items.len() as u64);
                out.push(13);
                out.push(10);
                encode_items(items, 0, out);
                proof {
                    assert(items@.skip(0) =~= items@);
                }
            },
        },
        Err(e) => {
            out.push(45);
            let m = e.message_bytes();
            push_bytes(out, &m);
            out.push(13);
            out.push(10);
        },
    }
    proof {
        assert(out@ =~= old(out)@ + encode_result_bytes(*value));
    }
}

/// Appends the members of an array from `from` on, in order.
pub fn encode_items(items: &Vec<RedisResult>, from: usize, out: &mut Vec<u8>)
    requires
        from <= items@.len(),
    ensures
        final(out)@ == old(out)@ + encode_items_bytes(items@.skip(from as int)),
    decreases items@, items@.len() - from,
{
    if from < items.len() {
        encode(&items[from], out);
        encode_items(items, from + 1, out);
        proof {
            assert(items@.skip(from as int)[0] == items@[from as int]);
            assert(items@.skip(from as int).skip(1) =~= items@.skip(from + 1));
            assert(out@ =~= old(out)@ + encode_items_bytes(items@.skip(from as int)));
        }
    } else {
        proof {
            assert(items@.skip(from as int) =~= Seq::<RedisResult>::empty());
            assert(out@ =~= old(out)@ + encode_items_bytes(items@.skip(from as int)));
        }
    }
}

/// The first carriage return in the buffer, if any.
pub open spec fn find_byte_spec(s: Seq<u8>, b: u8) -> Option<int>
    decreases s.len(),
{
    if s.len() == 0 {
        None
    } else if s[0] == b {
        Some(0)
    } else {
        match find_byte_spec(s.skip(1), b) {
            Some(i) => Some(i + 1),
            None => None,
        }
    }
}

/// Finds the first occurrence of a byte.
pub fn find_byte(buf: &Vec<u8>, from: usize, b: u8) -> (r: Option<usize>)
    requires
        from <= buf@.len(),
    ensures
        match r {
            Some(i) => from <= i < buf@.len() && find_byte_spec(buf@.skip(from as int), b) == Some(
                i - from,
            ) && buf@[i as int] == b && (forall|j: int| from <= j < i ==> buf@[j] != b),
            None => find_byte_spec(buf@.skip(from as int), b) is None && (forall|j: int|
                from <= j < buf@.len() ==> buf@[j] != b),
        },
{
    let len: usize = buf.len();
    let mut i: usize = from;
    while i < len
        invariant
            from <= i <= len == buf@.len(),
            forall|j: int| from <= j < i ==> buf@[j] != b,
        decreases len - i,
    {
        if buf[i] == b {
            proof {
                lemma_find_byte_at(buf@, from as int, i as int, b);
            }
            return Some(i);
        }
        i = i + 1;
    }
    proof {
        lemma_find_byte_none(buf@, from as int, b);
    }
    None
}

proof fn lemma_find_byte_at(s: Seq<u8>, from: int, at: int, b: u8)
    requires
        0 <= from <= at < s.len(),
        s[at] == b,
        forall|j: int| from <= j < at ==> s[j] != b,
    ensures
        find_byte_spec(s.skip(from), b) == Some(at - from),
    decreases at - from,
{
    assert(s.skip(from)[0] == s[from]);
    if at == from {
    } else {
        lemma_find_byte_at(s, from + 1, at, b);
        assert(s.skip(from).skip(1) =~= s.skip(from + 1));
    }
}

proof fn lemma_find_byte_none(s: Seq<u8>, from: int, b: u8)
    requires
        0 <= from <= s.len(),
        forall|j: int| from <= j < s.len() ==> s[j] != b,
    ensures
        find_byte_spec(s.skip(from), b) is None,
    decreases s.len() - from,
{
    if from < s.len() {
        assert(s.skip(from)[0] == s[from]);
        lemma_find_byte_none(s, from + 1, b);
        assert(s.skip(from).skip(1) =~= s.skip(from + 1));
    }
}

/// What one call on a buffer yields: nothing yet, a complete argument
/// vector with the bytes that follow it, or a framing error.
pub enum Decoded {
    Incomplete,
    Frame(Seq<Seq<u8>>, Seq<u8>),
    Failed(ProtocolError),
}

/// The largest bulk length the decoder accepts.
pub open spec fn bulk_len_max() -> nat {
    1844674407370955160
}

/// The multibulk items after the header: `need` more bulk strings.
pub open spec fn mb_items_spec(need: nat, acc: Seq<Seq<u8>>, s: Seq<u8>) -> Decoded
    decreases need,
{
    if need == 0 {
        Decoded::Frame(acc, s)
    } else {
        match find_byte_spec(s, 13) {
            None => Decoded::Incomplete,
            Some(end) => if end + 1 >= s.len() {
                Decoded::Incomplete
            } else {
                let header = s.subrange(0, end);
                if header.len() == 0 || header[0] != 36 {
                    Decoded::Failed(ProtocolError::UnexpectedByte { expected: 36, got: s[0] })
                } else {
                    let lenfield = header.skip(1);
                    if !is_signed_decimal(lenfield) || lenfield[0] == 45 || signed_decimal_value(
                        lenfield,
                    ) > bulk_len_max() {
                        Decoded::Failed(ProtocolError::InvalidBulkLength)
                    } else {
                        let blen = signed_decimal_value(lenfield);
                        if s.len() < end + 2 + blen + 2 {
                            Decoded::Incomplete
                        } else {
                            mb_items_spec(
                                (need - 1) as nat,
                                acc.push(s.subrange(end + 2, end + 2 + blen)),
                                s.skip(end + 2 + blen + 2),
                            )
                        }
                    }
                }
            },
        }
    }
}

/// A whole multibulk frame: the `*N` header, then `N` bulk strings.
pub open spec fn multibulk_spec(s: Seq<u8>) -> Decoded {
    match find_byte_spec(s, 13) {
        None => Decoded::Incomplete,
        Some(end) => if end + 1 >= s.len() {
            Decoded::Incomplete
        } else {
            let lenfield = s.subrange(1, end);
            if !is_signed_decimal(lenfield) || signed_decimal_value(lenfield) > 2147483647
                || signed_decimal_value(lenfield) < -2147483648 {
                Decoded::Failed(ProtocolError::InvalidMultibulkLength)
            } else if signed_decimal_value(lenfield) <= 0 {
                Decoded::Frame(Seq::empty(), s.skip(end + 2))
            } else {
                mb_items_spec(signed_decimal_value(lenfield) as nat, Seq::empty(), s.skip(end + 2))
            }
        },
    }
}

/// An inline frame: one line handed to the tokenizer.
pub open spec fn inline_spec(s: Seq<u8>) -> Decoded {
    match find_byte_spec(s, 10) {
        None => Decoded::Incomplete,
        Some(nl) => match split_args_spec(s.subrange(0, nl)) {
            None => Decoded::Failed(ProtocolError::UnbalancedQuotes),
            Some(toks) => Decoded::Frame(toks, s.skip(nl + 1)),
        },
    }
}

/// What decoding one frame from the buffer means.
pub open spec fn decode_spec(s: Seq<u8>) -> Decoded {
    if s.len() == 0 {
        Decoded::Incomplete
    } else if s[0] == 42 {
        multibulk_spec(s)
    } else {
        inline_spec(s)
    }
}

/// The request decoder. It holds no state of its own: a frame is
/// consumed only once it arrived whole.
#[derive(Debug, Clone, Copy, PartialEq, Eq, Structural)]
pub struct RespCodec {
}

impl RespCodec {
    pub fn new() -> (r: RespCodec) {
        RespCodec {  }
    }

    /// Decodes one request frame from the front of `src`: `Ok(None)`
    /// while the frame is still incomplete (nothing consumed),
    /// `Ok(Some(args))` for a complete frame (consumed), and a
    /// protocol error for a malformed one.
    pub fn decode(&mut self, src: &mut Vec<u8>) -> (r: Result<Option<Vec<Vec<u8>>>, RespError>)
        ensures
            match decode_spec(old(src)@) {
                Decoded::Incomplete => r == Ok::<Option<Vec<Vec<u8>>>, RespError>(None)
                    && final(src)@ == old(src)@,
                Decoded::Frame(args, rest) => match r {
                    Ok(Some(toks)) => token_views(toks@) == args && final(src)@ == rest,
                    _ => false,
                },
                Decoded::Failed(e) => r == Err::<Option<Vec<Vec<u8>>>, RespError>(
                    RespError::Protocol(e),
                ),
            },
    {
        if src.len() == 0 {
            return Ok(None);
        }
        if src[0] == 42 {
            self.decode_multibulk(src)
        } else {
            decode_inline(src)
        }
    }

    /// The multibulk form.
    fn decode_multibulk(&mut self, src: &mut Vec<u8>) -> (r: Result<
        Option<Vec<Vec<u8>>>,
        RespError,
    >)
        requires
            old(src)@.len() > 0,
            old(src)@[0] == 42,
        ensures
            match multibulk_spec(old(src)@) {
                Decoded::Incomplete => r == Ok::<Option<Vec<Vec<u8>>>, RespError>(None)
                    && final(src)@ == old(src)@,
                Decoded::Frame(args, rest) => match r {
                    Ok(Some(toks)) => token_views(toks@) == args && final(src)@ == rest,
                    _ => false,
                },
                Decoded::Failed(e) => r == Err::<Option<Vec<Vec<u8>>>, RespError>(
                    RespError::Protocol(e),
                ),
            },
    {
        let len: usize = src.len();
        let end = match find_byte(src, 0, 13) {
            Some(e) => e,
            None => {
                proof {
                    assert(old(src)@.skip(0) =~= old(src)@);
                }
                return Ok(None);
            },
        };
        proof {
            assert(old(src)@.skip(0) =~= old(src)@);
            assert(end >= 1);
        }
        if end + 1 >= len {
            return Ok(None);
        }
        proof {
            assert(old(src)@.subrange(1, end as int) =~= src@.subrange(1int, end as int));
        }
        let n: i64 = match parse_multibulk_len(src, 1, end) {
            Some(v) => v,
            None => {
                return Err(RespError::Protocol(ProtocolError::InvalidMultibulkLength));
            },
        };
        if n <= 0 {
            let rest = crate::raft::codec::copy_range(src, end + 2, len);
            let ghost rest_view = rest@;
            *src = rest;
            let empty: Vec<Vec<u8>> = Vec::new();
            proof {
                assert(rest_view =~= old(src)@.skip(end + 2));
                assert(token_views(empty@) =~= Seq::<Seq<u8>>::empty());
            }
            return Ok(Some(empty));
        }
        // read the n bulk strings
        let need0: usize = n as usize;
        let mut acc: Vec<Vec<u8>> = Vec::new();
        let mut pos: usize = end + 2;
        let mut need: usize = need0;
        proof {
            assert(old(src)@.skip(end + 2) =~= src@.skip(end + 2));
            assert(multibulk_spec(old(src)@) == mb_items_spec(
                need0 as nat,
                Seq::empty(),
                old(src)@.skip(end + 2),
            ));
            assert(token_views(acc@) =~= Seq::<Seq<u8>>::empty());
        }
        while need > 0
            invariant
                pos <= src@.len(),
                src@ == old(src)@,
                mb_items_spec(need as nat, token_views(acc@), src@.skip(pos as int))
                    == multibulk_spec(old(src)@),
            decreases need,
        {
            let ghost rest = src@.skip(pos as int);
            let slen: usize = src.len();
            let bend = match find_byte(src, pos, 13) {
                Some(e) => e,
                None => {
                    proof {
                        assert(mb_items_spec(need as nat, token_views(acc@), rest)
                            == Decoded::Incomplete);
                    }
                    return Ok(None);
                },
            };
            proof {
                assert(find_byte_spec(rest, 13) == Some(bend - pos));
            }
            if bend + 1 >= slen {
                proof {
                    assert(mb_items_spec(need as nat, token_views(acc@), rest)
                        == Decoded::Incomplete);
                }
                return Ok(None);
            }
            let ghost header = rest.subrange(0, bend - pos);
            if bend == pos || src[pos] != 36 {
                proof {
                    assert(rest[0] == src@[pos as int]);
                    if bend > pos {
                        assert(header[0] == src@[pos as int]);
                    }
                }
                return Err(
                    RespError::Protocol(
                        ProtocolError::UnexpectedByte { expected: 36, got: src[pos] },
                    ),
                );
            }
            proof {
                assert(header.len() > 0);
                assert(header[0] == src@[pos as int]);
                assert(header.skip(1) =~= src@.subrange(pos + 1, bend as int));
            }
            let blen64 = match parse_unsigned_capped(src, pos + 1, bend, 1844674407370955160u64) {
                Some(v) => v,
                None => {
                    return Err(RespError::Protocol(ProtocolError::InvalidBulkLength));
                },
            };
            if slen - bend < 2 || ((slen - bend - 2) as u64) < blen64 || ((slen - bend - 2) as u64)
                - blen64 < 2 {
                proof {
                    assert(rest.len() < (bend - pos) + 2 + blen64 + 2);
                    assert(mb_items_spec(need as nat, token_views(acc@), rest)
                        == Decoded::Incomplete);
                }
                return Ok(None);
            }
            let blen: usize = blen64 as usize;
            let item = crate::raft::codec::copy_range(src, bend + 2, bend + 2 + blen);
            let ghost prev_acc = token_views(acc@);
            let ghost old_need = need as nat;
            acc.push(item);
            proof {
                assert(token_views(acc@) =~= prev_acc.push(rest.subrange(
                    (bend - pos) + 2,
                    (bend - pos) + 2 + blen,
                ))) by {
                    assert(rest.subrange((bend - pos) + 2, (bend - pos) + 2 + blen) =~= src@.subrange(
                        bend + 2,
                        bend + 2 + blen,
                    ));
                };
                assert(rest.skip((bend - pos) + 2 + blen + 2) =~= src@.skip(
                    pos + (bend - pos) + 2 + blen + 2,
                ));
                assert(mb_items_spec(old_need, prev_acc, rest) == mb_items_spec(
                    (old_need - 1) as nat,
                    token_views(acc@),
                    src@.skip(pos + (bend - pos) + 2 + blen + 2),
                ));
            }
            pos = bend + 2 + blen + 2;
            need = need - 1;
        }
        let len2: usize = src.len();
        let rest = crate::raft::codec::copy_range(src, pos, len2);
        let ghost rest_view = rest@;
        *src = rest;
        proof {
            assert(rest_view =~= old(src)@.skip(pos as int));
            assert(mb_items_spec(0, token_views(acc@), old(src)@.skip(pos as int))
                == Decoded::Frame(token_views(acc@), old(src)@.skip(pos as int)));
        }
        Ok(Some(acc))
    }
}

/// Parses the multibulk count: a 32-bit signed decimal.
fn parse_multibulk_len(buf: &Vec<u8>, from: usize, to: usize) -> (r: Option<i64>)
    requires
        from <= to <= buf@.len(),
    ensures
        ({
            let s = buf@.subrange(from as int, to as int);
            match r {
                Some(v) => is_signed_decimal(s) && -2147483648 <= signed_decimal_value(s)
                    <= 2147483647 && v == signed_decimal_value(s),
                None => !is_signed_decimal(s) || signed_decimal_value(s) > 2147483647
                    || signed_decimal_value(s) < -2147483648,
            }
        }),
{
    let ghost s = buf@.subrange(from as int, to as int);
    if from == to {
        return None;
    }
    let first: u8 = buf[from];
    if first == 45 {
        if to - from == 1 {
            return None;
        }
        if buf[from + 1] == 43 {
            proof {
                assert(s.skip(1)[0] == buf@[from + 1]);
                assert(!is_signed_decimal(s));
            }
            return None;
        }
        let mag = match parse_unsigned_capped(buf, from + 1, to, 2147483648u64) {
            Some(v) => v,
            None => {
                proof {
                    let t = buf@.subrange(from + 1, to as int);
                    assert(s.skip(1) =~= t);
                    if is_signed_decimal(s) {
                        assert(all_digits(t));
                        assert(is_signed_decimal(t) && t[0] != 45 && t[0] != 43);
                        assert(signed_decimal_value(t) == digits_value(t));
                        assert(signed_decimal_value(s) == -(digits_value(t) as int));
                    }
                }
                return None;
            },
        };
        proof {
            let t = buf@.subrange(from + 1, to as int);
            assert(s.skip(1) =~= t);
            assert(t[0] != 43 && t[0] != 45);
            assert(all_digits(t));
            assert(signed_decimal_value(t) == digits_value(t));
            assert(is_signed_decimal(s));
            assert(signed_decimal_value(s) == -(digits_value(t) as int));
        }
        Some(-(mag as i64))
    } else {
        let v = match parse_unsigned_capped(buf, from, to, 2147483647u64) {
            Some(v) => v,
            None => {
                return None;
            },
        };
        Some(v as i64)
    }
}

/// The inline form: one line for the tokenizer.
fn decode_inline(src: &mut Vec<u8>) -> (r: Result<Option<Vec<Vec<u8>>>, RespError>)
    requires
        old(src)@.len() > 0,
        old(src)@[0] != 42,
    ensures
        match inline_spec(old(src)@) {
            Decoded::Incomplete => r == Ok::<Option<Vec<Vec<u8>>>, RespError>(None) && final(src)@
                == old(src)@,
            Decoded::Frame(args, rest) => match r {
                Ok(Some(toks)) => token_views(toks@) == args && final(src)@ == rest,
                _ => false,
            },
            Decoded::Failed(e) => r == Err::<Option<Vec<Vec<u8>>>, RespError>(
                RespError::Protocol(e),
            ),
        },
{
    let len: usize = src.len();
    let nl = match find_byte(src, 0, 10) {
        Some(e) => e,
        None => {
            proof {
                assert(old(src)@.skip(0) =~= old(src)@);
            }
            return Ok(None);
        },
    };
    proof {
        assert(old(src)@.skip(0) =~= old(src)@);
    }
    let line = crate::raft::codec::copy_range(src, 0, nl);
    let toks = match split_args(&line) {
        Ok(t) => t,
        Err(_) => {
            return Err(RespError::Protocol(ProtocolError::UnbalancedQuotes));
        },
    };
    let rest = crate::raft::codec::copy_range(src, nl + 1, len);
    let ghost rest_view = rest@;
    *src = rest;
    proof {
        assert(rest_view =~= old(src)@.skip(nl + 1));
    }
    Ok(Some(toks))
}

/// One bulk string as the multibulk form frames it.
pub open spec fn bulk_frame(arg: Seq<u8>) -> Seq<u8> {
    seq![36u8] + dec_digits(arg.len()) + crlf() + arg + crlf()
}

/// The frames of an argument vector, in order.
pub open spec fn bulk_frames(args: Seq<Seq<u8>>) -> Seq<u8>
    decreases args.len(),
{
    if args.len() == 0 {
        Seq::empty()
    } else {
        bulk_frame(args[0]) + bulk_frames(args.skip(1))
    }
}

/// The whole multibulk wire form of an argument vector.
pub open spec fn multibulk_wire(args: Seq<Seq<u8>>) -> Seq<u8> {
    seq![42u8] + dec_digits(args.len()) + crlf() + bulk_frames(args)
}

/// One more frame extends the byte image by one frame.
pub proof fn lemma_bulk_frames_push(args: Seq<Seq<u8>>, arg: Seq<u8>)
    ensures
        bulk_frames(args.push(arg)) == bulk_frames(args) + bulk_frame(arg),
    decreases args.len(),
{
    let p = args.push(arg);
    if args.len() == 0 {
        assert(p[0] == arg);
        assert(p.skip(1) =~= Seq::<Seq<u8>>::empty());
        assert(bulk_frames(p) =~= bulk_frames(args) + bulk_frame(arg));
    } else {
        assert(p.skip(1) =~= args.skip(1).push(arg));
        lemma_bulk_frames_push(args.skip(1), arg);
        assert(bulk_frames(p.skip(1)) == bulk_frames(args.skip(1)) + bulk_frame(arg));
        assert(p[0] == args[0]);
        assert(bulk_frames(p) == bulk_frame(p[0]) + bulk_frames(p.skip(1)));
        assert(bulk_frames(args) == bulk_frame(args[0]) + bulk_frames(args.skip(1)));
        assert(bulk_frames(p) =~= bulk_frames(args) + bulk_frame(arg));
    }
}

/// Appends the multibulk wire form of an argument vector.
pub fn encode_argv_frame(argv: &Vec<Vec<u8>>, out: &mut Vec<u8>)
    ensures
        final(out)@ == old(out)@ + multibulk_wire(token_views(argv@)),
{
    out.push(42);
    push_dec_u64(out, argv.len() as u64);
    out.push(13);
    out.push(10);
    let ghost head = old(out)@ + seq![42u8] + dec_digits(argv@.len()) + crlf();
    proof {
        assert(out@ =~= head);
        assert(token_views(argv@).take(0) =~= Seq::<Seq<u8>>::empty());
        assert(out@ =~= head + bulk_frames(token_views(argv@).take(0)));
    }
    let n: usize = argv.len();
    let mut i: usize = 0;
    while i < n
        invariant
            i <= n == argv@.len(),
            out@ == head + bulk_frames(token_views(argv@).take(i as int)),
            head == old(out)@ + seq![42u8] + dec_digits(argv@.len()) + crlf(),
        decreases n - i,
    {
        let ghost before = out@;
        out.push(36);
        push_dec_u64(out, argv[i].len() as u64);
        out.push(13);
        out.push(10);
        push_bytes(out, &argv[i]);
        out.push(13);
        out.push(10);
        proof {
            assert(out@ =~= before + bulk_frame(argv@[i as int]@));
            assert(token_views(argv@).take(i + 1) =~= token_views(argv@).take(i as int).push(
                argv@[i as int]@,
            ));
            lemma_bulk_frames_push(token_views(argv@).take(i as int), argv@[i as int]@);
            assert(out@ =~= head + bulk_frames(token_views(argv@).take(i + 1)));
        }
        i = i + 1;
    }
    proof {
        assert(token_views(argv@).take(n as int) =~= token_views(argv@));
        assert(out@ =~= old(out)@ + multibulk_wire(token_views(argv@)));
    }
}

/// An array of bulk strings encodes to exactly the multibulk wire form
/// of its contents: what the encoder writes for a request-shaped reply
/// is a request frame.
pub proof fn lemma_request_shaped_encoding(items: Seq<RedisResult>, args: Seq<Seq<u8>>)
    requires
        items.len() == args.len(),
        forall|i: int|
            0 <= i < items.len() ==> match #[trigger] items[i] {
                Ok(v) => match v {
                    Value::BulkString(b) => b@ == args[i],
                    _ => false,
                },
                _ => false,
            },
    ensures
        encode_items_bytes(items) == bulk_frames(args),
    decreases items.len(),
{
    if items.len() == 0 {
    } else {
        assert(forall|i: int|
            0 <= i < items.skip(1).len() ==> #[trigger] items.skip(1)[i] == items[i + 1]);
        assert(forall|i: int|
            0 <= i < args.skip(1).len() ==> #[trigger] args.skip(1)[i] == args[i + 1]);
        lemma_request_shaped_encoding(items.skip(1), args.skip(1));
        match items[0] {
            Ok(v) => match v {
                Value::BulkString(b) => {
                    assert(encode_result_bytes(items[0]) =~= bulk_frame(args[0]));
                },
                _ => {},
            },
            _ => {},
        }
        assert(encode_items_bytes(items) =~= bulk_frames(args));
    }
}

/// Encoding an argument vector as multibulk and then decoding yields
/// the argument vector back, with everything after the frame intact:
/// the round trip of a request-shaped value over the wire.
pub proof fn lemma_request_round_trip(args: Seq<Seq<u8>>, rest: Seq<u8>)
    requires
        1 <= args.len() <= 2147483647,
        forall|i: int| 0 <= i < args.len() ==> (#[trigger] args[i]).len() <= bulk_len_max(),
    ensures
        decode_spec(multibulk_wire(args) + rest) == Decoded::Frame(args, rest),
{
    let s = multibulk_wire(args) + rest;
    let header = dec_digits(args.len());
    crate::numbers::lemma_dec_digits_value(args.len());
    let end = 1 + header.len() as int;
    assert(s[0] == 42);
    assert forall|j: int| 0 <= j < end implies s[j] != 13 by {
        if j > 0 {
            assert(s[j] == header[j - 1]);
            assert(48 <= header[j - 1] <= 57);
        }
    }
    assert(s[end] == 13);
    lemma_find_byte_at(s, 0, end, 13);
    assert(s.skip(0) =~= s);
    assert(find_byte_spec(s, 13) == Some(end));
    assert(s[end + 1] == 10);
    let lenfield = s.subrange(1, end);
    assert(lenfield =~= header);
    assert(is_signed_decimal(lenfield));
    assert(signed_decimal_value(lenfield) == args.len());
    assert(s.skip(end + 2) =~= bulk_frames(args) + rest);
    lemma_multibulk_items_round_trip(args, Seq::empty(), rest);
    assert(Seq::<Seq<u8>>::empty() + args =~= args);
    assert(decode_spec(s) == Decoded::Frame(args, rest));
}

/// The items after the multibulk header parse back one by one.
#[verifier::rlimit(100)]
#[verifier::spinoff_prover]
proof fn lemma_multibulk_items_round_trip(args: Seq<Seq<u8>>, acc: Seq<Seq<u8>>, rest: Seq<u8>)
    requires
        forall|i: int| 0 <= i < args.len() ==> (#[trigger] args[i]).len() <= bulk_len_max(),
    ensures
        mb_items_spec(args.len(), acc, bulk_frames(args) + rest) == Decoded::Frame(
            acc + args,
            rest,
        ),
    decreases args.len(),
{
    if args.len() == 0 {
        assert(bulk_frames(args) + rest =~= rest);
        assert(acc + args =~= acc);
    } else {
        let arg = args[0];
        let s = bulk_frames(args) + rest;
        let header = dec_digits(arg.len());
        crate::numbers::lemma_dec_digits_value(arg.len());
        let end = 1 + header.len() as int;
        assert(s =~= seq![36u8] + header + crlf() + arg + crlf() + (bulk_frames(args.skip(1))
            + rest));
        assert forall|j: int| 0 <= j < end implies s[j] != 13 by {
            if j == 0 {
                assert(s[0] == 36);
            } else {
                assert(s[j] == header[j - 1]);
                assert(48 <= header[j - 1] <= 57);
            }
        }
        assert(s[end] == 13);
        lemma_find_byte_at(s, 0, end, 13);
        assert(s.skip(0) =~= s);
        assert(find_byte_spec(s, 13) == Some(end));
        assert(s[end + 1] == 10);
        let hfield = s.subrange(0, end);
        assert(hfield.len() > 0 && hfield[0] == 36);
        let lenfield = hfield.skip(1);
        assert(lenfield =~= header);
        assert(is_signed_decimal(lenfield));
        assert(signed_decimal_value(lenfield) == arg.len());
        assert(s.len() >= end + 2 + arg.len() + 2);
        assert(s.subrange(end + 2, end + 2 + arg.len() as int) =~= arg);
        assert(s.skip(end + 2 + arg.len() + 2) =~= bulk_frames(args.skip(1)) + rest);
        assert(forall|i: int|
            0 <= i < args.skip(1).len() ==> (#[trigger] args.skip(1)[i]).len()
                <= bulk_len_max());
        lemma_multibulk_items_round_trip(args.skip(1), acc.push(arg), rest);
        assert(acc.push(arg) + args.skip(1) =~= acc + args);
        assert(mb_items_spec(args.len(), acc, s) == mb_items_spec(
            (args.len() - 1) as nat,
            acc.push(arg),
            bulk_frames(args.skip(1)) + rest,
        ));
    }
}

} // verus!
