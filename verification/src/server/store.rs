//! The state-machine adapter's payload framing: a replicated command
//! is either one argument vector (a single write) or a batch of them
//! (a transaction), carried as a marker byte followed by multibulk
//! frames. Decoding gives the exact vectors back; a batch's responses
//! are collected into one array reply, so an empty batch yields the
//! empty array.

use vstd::prelude::*;
use crate::redis::command::{command_name, RedisCommand};
use crate::redis::error::RedisError;
use crate::redis::resp::{bulk_len_max, decode_spec, encode_argv_frame, lemma_request_round_trip,
    multibulk_wire, Decoded, RedisResult, RespCodec, Value};
use crate::redis::session::QueuedCommand;
use crate::redis::string::token_views;
use crate::raft::types::copy_bytes;

verus! {

/// A decoded replicated command: one argument vector, or a batch.
#[derive(Debug, PartialEq, Eq)]
pub enum CommandPayload {
    Single(Vec<Vec<u8>>),
    Batch(Vec<Vec<Vec<u8>>>),
}

/// The mathematical value of a decoded payload.
pub enum PayloadModel {
    Single(Seq<Seq<u8>>),
    Batch(Seq<Seq<Seq<u8>>>),
}

/// The views of a list of argument vectors.
pub open spec fn argvs_views(s: Seq<Vec<Vec<u8>>>) -> Seq<Seq<Seq<u8>>> {
    s.map_values(|v: Vec<Vec<u8>>| token_views(v@))
}

impl View for CommandPayload {
    type V = PayloadModel;

    open spec fn view(&self) -> PayloadModel {
        match self {
            CommandPayload::Single(argv) => PayloadModel::Single(token_views(argv@)),
            CommandPayload::Batch(argvs) => PayloadModel::Batch(argvs_views(argvs@)),
        }
    }
}

/// The argument vector a queued command replays as: its name, then
/// its arguments.
pub open spec fn command_argv(c: RedisCommand, args: Seq<Seq<u8>>) -> Seq<Seq<u8>> {
    seq![command_name(c)] + args
}

/// The frames of a batch, in order.
pub open spec fn frames_bytes(argvs: Seq<Seq<Seq<u8>>>) -> Seq<u8>
    decreases argvs.len(),
{
    if argvs.len() == 0 {
        Seq::empty()
    } else {
        multibulk_wire(argvs[0]) + frames_bytes(argvs.skip(1))
    }
}

/// The replicated bytes of a single write.
pub open spec fn single_payload_bytes(argv: Seq<Seq<u8>>) -> Seq<u8> {
    seq![83u8] + multibulk_wire(argv)
}

/// The replicated bytes of a batch.
pub open spec fn batch_payload_bytes(argvs: Seq<Seq<Seq<u8>>>) -> Seq<u8> {
    seq![88u8] + frames_bytes(argvs)
}

/// The frames read back from a batch body: every frame must be whole
/// and the body must end on a frame boundary.
pub open spec fn parse_frames(s: Seq<u8>) -> Option<Seq<Seq<Seq<u8>>>>
    decreases s.len(),
{
    if s.len() == 0 {
        Some(Seq::empty())
    } else {
        match decode_spec(s) {
            Decoded::Frame(args, rest) => if rest.len() < s.len() {
                match parse_frames(rest) {
                    Some(fs) => Some(seq![args] + fs),
                    None => None,
                }
            } else {
                None
            },
            _ => None,
        }
    }
}

/// The payload read back; `None` when the bytes are not the encoding
/// of any payload.
pub open spec fn parse_payload(p: Seq<u8>) -> Option<PayloadModel> {
    if p.len() == 0 {
        None
    } else if p[0] == 83 {
        match decode_spec(p.skip(1)) {
            Decoded::Frame(args, rest) => if rest.len() == 0 {
                Some(PayloadModel::Single(args))
            } else {
                None
            },
            _ => None,
        }
    } else if p[0] == 88 {
        match parse_frames(p.skip(1)) {
            Some(fs) => Some(PayloadModel::Batch(fs)),
            None => None,
        }
    } else {
        None
    }
}

/// Serializes one command dispatch for replication.
pub fn encode_single(command: RedisCommand, args: &Vec<Vec<u8>>) -> (r: Vec<u8>)
    ensures
        r@ == single_payload_bytes(command_argv(command, token_views(args@))),
{
    let mut argv: Vec<Vec<u8>> = Vec::new();
    argv.push(command.name_of());
    let n: usize = args.len();
    let mut i: usize = 0;
    proof {
        assert(token_views(argv@) =~= seq![command_name(command)] + token_views(args@).take(0));
    }
    while i < n
        invariant
            i <= n == args@.len(),
            token_views(argv@) == seq![command_name(command)] + token_views(args@).take(i as int),
        decreases n - i,
    {
        let ghost prev_argv = argv@;
        argv.push(copy_bytes(&args[i]));
        proof {
            assert(token_views(argv@) =~= token_views(prev_argv).push(args@[i as int]@));
            assert(token_views(argv@) =~= seq![command_name(command)] + token_views(args@).take(
                i + 1,
            ));
        }
        i = i + 1;
    }
    proof {
        assert(token_views(argv@) =~= command_argv(command, token_views(args@)));
    }
    let mut out: Vec<u8> = Vec::new();
    out.push(83);
    encode_argv_frame(&argv, &mut out);
    proof {
        assert(out@ =~= single_payload_bytes(command_argv(command, token_views(args@))));
    }
    out
}

/// The argument vectors a batch replays as.
pub open spec fn batch_argvs(q: Seq<(RedisCommand, Seq<Seq<u8>>)>) -> Seq<Seq<Seq<u8>>> {
    q.map_values(|p: (RedisCommand, Seq<Seq<u8>>)| command_argv(p.0, p.1))
}

/// One more frame extends the batch image by one frame.
proof fn lemma_frames_bytes_push(argvs: Seq<Seq<Seq<u8>>>, argv: Seq<Seq<u8>>)
    ensures
        frames_bytes(argvs.push(argv)) == frames_bytes(argvs) + multibulk_wire(argv),
    decreases argvs.len(),
{
    let p = argvs.push(argv);
    if argvs.len() == 0 {
        assert(p[0] == argv);
        assert(p.skip(1) =~= Seq::<Seq<Seq<u8>>>::empty());
        assert(frames_bytes(p) == multibulk_wire(p[0]) + frames_bytes(p.skip(1)));
        assert(frames_bytes(p.skip(1)) == Seq::<u8>::empty());
        assert(frames_bytes(argvs) == Seq::<u8>::empty());
        assert(frames_bytes(p) =~= frames_bytes(argvs) + multibulk_wire(argv));
    } else {
        assert(p.skip(1) =~= argvs.skip(1).push(argv));
        lemma_frames_bytes_push(argvs.skip(1), argv);
        assert(frames_bytes(p.skip(1)) == frames_bytes(argvs.skip(1)) + multibulk_wire(argv));
        assert(p[0] == argvs[0]);
        assert(frames_bytes(p) == multibulk_wire(p[0]) + frames_bytes(p.skip(1)));
        assert(frames_bytes(argvs) == multibulk_wire(argvs[0]) + frames_bytes(argvs.skip(1)));
        assert(frames_bytes(p) =~= frames_bytes(argvs) + multibulk_wire(argv));
    }
}

/// Serializes a transaction batch for replication.
pub fn encode_batch(batch: &Vec<QueuedCommand>) -> (r: Vec<u8>)
    ensures
        r@ == batch_payload_bytes(batch_argvs(crate::redis::session::queue_model(batch@))),
{
    let ghost q = crate::redis::session::queue_model(batch@);
    let mut out: Vec<u8> = Vec::new();
    out.push(88);
    let n: usize = batch.len();
    let mut i: usize = 0;
    proof {
        assert(batch_argvs(q).take(0) =~= Seq::<Seq<Seq<u8>>>::empty());
        assert(out@ =~= seq![88u8] + frames_bytes(batch_argvs(q).take(0)));
    }
    while i < n
        invariant
            i <= n == batch@.len(),
            q == crate::redis::session::queue_model(batch@),
            out@ == seq![88u8] + frames_bytes(batch_argvs(q).take(i as int)),
        decreases n - i,
    {
        let ghost before = out@;
        let mut argv: Vec<Vec<u8>> = Vec::new();
        argv.push(batch[i].command.name_of());
        let m: usize = batch[i].args.len();
        let mut j: usize = 0;
        proof {
            assert(token_views(argv@) =~= seq![command_name(batch@[i as int].command)]
                + token_views(batch@[i as int].args@).take(0));
        }
        while j < m
            invariant
                0 <= i < batch@.len(),
                j <= m == batch@[i as int].args@.len(),
                token_views(argv@) == seq![command_name(batch@[i as int].command)] + token_views(
                    batch@[i as int].args@,
                ).take(j as int),
            decreases m - j,
        {
            let ghost prev_argv = argv@;
            argv.push(copy_bytes(&batch[i].args[j]));
            proof {
                assert(token_views(argv@) =~= token_views(prev_argv).push(
                    batch@[i as int].args@[j as int]@,
                ));
                assert(token_views(argv@) =~= seq![command_name(batch@[i as int].command)]
                    + token_views(batch@[i as int].args@).take(j + 1));
            }
            j = j + 1;
        }
        proof {
            assert(token_views(batch@[i as int].args@).take(m as int) =~= token_views(
                batch@[i as int].args@,
            ));
            assert(token_views(argv@) =~= command_argv(
                batch@[i as int].command,
                token_views(batch@[i as int].args@),
            ));
            assert(batch_argvs(q)[i as int] == command_argv(
                batch@[i as int].command,
                token_views(batch@[i as int].args@),
            ));
        }
        encode_argv_frame(&argv, &mut out);
        proof {
            assert(out@ =~= before + multibulk_wire(batch_argvs(q)[i as int]));
            assert(batch_argvs(q).take(i + 1) =~= batch_argvs(q).take(i as int).push(
                batch_argvs(q)[i as int],
            ));
            lemma_frames_bytes_push(batch_argvs(q).take(i as int), batch_argvs(q)[i as int]);
            assert(out@ =~= seq![88u8] + frames_bytes(batch_argvs(q).take(i + 1)));
        }
        i = i + 1;
    }
    proof {
        assert(batch_argvs(q).take(n as int) =~= batch_argvs(q));
        assert(out@ =~= batch_payload_bytes(batch_argvs(q)));
    }
    out
}

/// Reads a replicated payload back.
pub fn decode_payload(p: &Vec<u8>) -> (r: Option<CommandPayload>)
    ensures
        match r {
            Some(cp) => parse_payload(p@) == Some(cp@),
            None => parse_payload(p@) is None,
        },
{
    let len: usize = p.len();
    if len == 0 {
        return None;
    }
    let marker: u8 = p[0];
    let mut buf = crate::raft::codec::copy_range(p, 1, len);
    let ghost body = p@.skip(1);
    proof {
        assert(buf@ =~= body);
    }
    let mut codec = RespCodec::new();
    if marker == 83 {
        match codec.decode(&mut buf) {
            Ok(Some(toks)) => {
                if buf.len() == 0 {
                    Some(CommandPayload::Single(toks))
                } else {
                    None
                }
            },
            _ => None,
        }
    } else if marker == 88 {
        let mut acc: Vec<Vec<Vec<u8>>> = Vec::new();
        proof {
            assert(argvs_views(acc@) =~= Seq::<Seq<Seq<u8>>>::empty());
            assert(match parse_frames(body) {
                Some(fs) => parse_frames(buf@) == Some(fs) && fs =~= argvs_views(acc@) + fs,
                None => parse_frames(buf@) is None,
            });
        }
        while buf.len() > 0
            invariant
                p@.len() > 0,
                p@[0] == 88,
                body == p@.skip(1),
                match parse_frames(body) {
                    Some(fs) => match parse_frames(buf@) {
                        Some(rest_fs) => fs == argvs_views(acc@) + rest_fs,
                        None => false,
                    },
                    None => parse_frames(buf@) is None,
                },
            decreases buf@.len(),
        {
            let ghost before = buf@;
            let ghost prev_acc = acc@;
            let before_len: usize = buf.len();
            match codec.decode(&mut buf) {
                Ok(Some(toks)) => {
                    if buf.len() >= before_len {
                        // a frame consumes nothing only outside the
                        // grammar; the body does not parse
                        proof {
                            assert(parse_frames(before) is None);
                        }
                        return None;
                    }
                    let ghost tv = token_views(toks@);
                    acc.push(toks);
                    proof {
                        assert(argvs_views(acc@) =~= argvs_views(prev_acc).push(tv));
                        assert(parse_frames(before) == (match parse_frames(buf@) {
                            Some(fs2) => Some(seq![tv] + fs2),
                            None => None::<Seq<Seq<Seq<u8>>>>,
                        }));
                        if parse_frames(body) is Some {
                            assert(parse_frames(body).unwrap() =~= argvs_views(acc@)
                                + parse_frames(buf@).unwrap());
                        }
                    }
                },
                _ => {
                    proof {
                        assert(before.len() > 0);
                        assert(parse_frames(before) is None);
                    }
                    return None;
                },
            }
        }
        proof {
            assert(buf@.len() == 0);
            assert(parse_frames(buf@) == Some(Seq::<Seq<Seq<u8>>>::empty()));
            assert(parse_frames(body) is Some);
            assert(parse_frames(body).unwrap() =~= argvs_views(acc@));
        }
        Some(CommandPayload::Batch(acc))
    } else {
        None
    }
}

/// Collects a batch's answers into the one array reply the client
/// sees: an empty batch yields the empty array.
pub fn collect_batch(results: Vec<RedisResult>) -> (r: RedisResult)
    ensures
        r == Ok::<Value, RedisError>(Value::Array(results)),
{
    Ok(Value::Array(results))
}

/// A single write read back from its own serialization is itself.
pub proof fn lemma_single_payload_round_trip(argv: Seq<Seq<u8>>)
    requires
        1 <= argv.len() <= 2147483647,
        forall|i: int| 0 <= i < argv.len() ==> (#[trigger] argv[i]).len() <= bulk_len_max(),
    ensures
        parse_payload(single_payload_bytes(argv)) == Some(PayloadModel::Single(argv)),
{
    let p = single_payload_bytes(argv);
    assert(p[0] == 83);
    assert(p.skip(1) =~= multibulk_wire(argv) + Seq::<u8>::empty());
    lemma_request_round_trip(argv, Seq::empty());
}

/// Every frame of a batch reads back in order.
proof fn lemma_parse_frames_round_trip(argvs: Seq<Seq<Seq<u8>>>)
    requires
        forall|i: int|
            0 <= i < argvs.len() ==> 1 <= (#[trigger] argvs[i]).len() <= 2147483647 && (forall|
                j: int,
            |
                0 <= j < argvs[i].len() ==> (#[trigger] argvs[i][j]).len() <= bulk_len_max()),
    ensures
        parse_frames(frames_bytes(argvs)) == Some(argvs),
    decreases argvs.len(),
{
    if argvs.len() == 0 {
    } else {
        let s = frames_bytes(argvs);
        let tail = frames_bytes(argvs.skip(1));
        assert(s =~= multibulk_wire(argvs[0]) + tail);
        lemma_request_round_trip(argvs[0], tail);
        assert(decode_spec(s) == Decoded::Frame(argvs[0], tail));
        assert(tail.len() < s.len());
        assert(forall|i: int|
            0 <= i < argvs.skip(1).len() ==> #[trigger] argvs.skip(1)[i] == argvs[i + 1]);
        lemma_parse_frames_round_trip(argvs.skip(1));
        assert(seq![argvs[0]] + argvs.skip(1) =~= argvs);
    }
}

/// A batch read back from its own serialization is itself.
pub proof fn lemma_batch_payload_round_trip(argvs: Seq<Seq<Seq<u8>>>)
    requires
        forall|i: int|
            0 <= i < argvs.len() ==> 1 <= (#[trigger] argvs[i]).len() <= 2147483647 && (forall|
                j: int,
            |
                0 <= j < argvs[i].len() ==> (#[trigger] argvs[i][j]).len() <= bulk_len_max()),
    ensures
        parse_payload(batch_payload_bytes(argvs)) == Some(PayloadModel::Batch(argvs)),
{
    let p = batch_payload_bytes(argvs);
    assert(p[0] == 88);
    assert(p[0] != 83);
    assert(p.skip(1) =~= frames_bytes(argvs));
    lemma_parse_frames_round_trip(argvs);
}

} // verus!
