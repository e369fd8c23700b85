//! The per-connection transaction state machine and the command table.

use zakros::redis::command::{Arity, RedisCommand, WriteCommand};
use zakros::redis::error::{RedisError, ResponseError};
use zakros::redis::resp::Value;
use zakros::redis::session::{QueuedCommand, RedisSession, SessionOutput};
use zakros::server::store::{collect_batch, decode_payload, encode_batch, encode_single,
    CommandPayload};

fn bytes(s: &str) -> Vec<u8> {
    s.as_bytes().to_vec()
}

fn args(list: &[&str]) -> Vec<Vec<u8>> {
    list.iter().map(|s| bytes(s)).collect()
}

fn expect_simple(out: SessionOutput, text: &str) {
    match out {
        SessionOutput::Reply(Ok(Value::SimpleString(s))) => assert_eq!(s, bytes(text)),
        other => panic!("expected +{text}, got {other:?}"),
    }
}

fn expect_err_contains(out: SessionOutput, text: &str) {
    match out {
        SessionOutput::Reply(Err(e)) => {
            let line = String::from_utf8(e.message_bytes()).unwrap();
            assert!(line.contains(text), "{line} should mention {text}");
        },
        other => panic!("expected an error reply, got {other:?}"),
    }
}

#[test]
fn command_table_lookup() {
    match RedisCommand::try_from(&bytes("set")) {
        Ok(RedisCommand::Write(WriteCommand::SetCmd)) => {},
        other => panic!("unexpected {other:?}"),
    }
    assert_eq!(RedisCommand::try_from(&bytes("GET")).unwrap().arity(), Arity::Fixed(1));
    assert_eq!(RedisCommand::try_from(&bytes("RPUSH")).unwrap().arity(), Arity::AtLeast(2));
    match RedisCommand::try_from(&bytes("NOSUCHCMD")) {
        Err(RedisError::Response(ResponseError::UnknownCommand(n))) => {
            assert_eq!(n, bytes("NOSUCHCMD"))
        },
        other => panic!("unexpected {other:?}"),
    }
}

#[test]
fn plain_commands_dispatch() {
    let mut session = RedisSession::new();
    match session.call(&bytes("GET"), &args(&["k"])) {
        SessionOutput::Dispatch(RedisCommand::Read(_), a) => assert_eq!(a, args(&["k"])),
        other => panic!("unexpected {other:?}"),
    }
}

#[test]
fn wrong_arity_is_reported() {
    let mut session = RedisSession::new();
    expect_err_contains(session.call(&bytes("GET"), &args(&[])), "wrong number of arguments");
}

#[test]
fn multi_queues_and_exec_takes_the_batch() {
    let mut session = RedisSession::new();
    expect_simple(session.call(&bytes("MULTI"), &args(&[])), "OK");
    expect_simple(session.call(&bytes("INCR"), &args(&["x"])), "QUEUED");
    expect_simple(session.call(&bytes("INCR"), &args(&["x"])), "QUEUED");
    match session.call(&bytes("EXEC"), &args(&[])) {
        SessionOutput::Exec(batch) => {
            assert_eq!(batch.len(), 2);
            assert_eq!(batch[0].args, args(&["x"]));
        },
        other => panic!("unexpected {other:?}"),
    }
    // the transaction is closed again
    expect_err_contains(session.call(&bytes("EXEC"), &args(&[])), "EXEC without MULTI");
}

#[test]
fn empty_exec_returns_an_empty_batch() {
    let mut session = RedisSession::new();
    expect_simple(session.call(&bytes("MULTI"), &args(&[])), "OK");
    match session.call(&bytes("EXEC"), &args(&[])) {
        SessionOutput::Exec(batch) => assert!(batch.is_empty()),
        other => panic!("unexpected {other:?}"),
    }
}

#[test]
fn malformed_command_poisons_the_transaction() {
    let mut session = RedisSession::new();
    expect_simple(session.call(&bytes("MULTI"), &args(&[])), "OK");
    expect_err_contains(session.call(&bytes("NOSUCHCMD"), &args(&[])), "unknown command");
    match session.call(&bytes("EXEC"), &args(&[])) {
        SessionOutput::Reply(Err(RedisError::ExecAbort)) => {},
        other => panic!("unexpected {other:?}"),
    }
}

#[test]
fn nested_multi_and_discard() {
    let mut session = RedisSession::new();
    expect_simple(session.call(&bytes("MULTI"), &args(&[])), "OK");
    expect_err_contains(session.call(&bytes("MULTI"), &args(&[])), "can not be nested");
    expect_simple(session.call(&bytes("DISCARD"), &args(&[])), "OK");
    expect_err_contains(session.call(&bytes("DISCARD"), &args(&[])), "DISCARD without MULTI");
}

#[test]
fn system_commands_refuse_transactions() {
    let mut session = RedisSession::new();
    expect_simple(session.call(&bytes("MULTI"), &args(&[])), "OK");
    expect_err_contains(
        session.call(&bytes("SUBSCRIBE"), &args(&["c"])),
        "not allowed inside a transaction",
    );
    match session.call(&bytes("EXEC"), &args(&[])) {
        SessionOutput::Reply(Err(RedisError::ExecAbort)) => {},
        other => panic!("unexpected {other:?}"),
    }
}

#[test]
fn replicated_payloads_round_trip() {
    let command = RedisCommand::try_from(&bytes("SET")).unwrap();
    let single = encode_single(command, &args(&["k", "v"]));
    match decode_payload(&single) {
        Some(CommandPayload::Single(argv)) => assert_eq!(argv, args(&["SET", "k", "v"])),
        other => panic!("unexpected {other:?}"),
    }

    let incr = RedisCommand::try_from(&bytes("INCR")).unwrap();
    let batch = vec![
        QueuedCommand { command: incr, args: args(&["x"]) },
        QueuedCommand { command, args: args(&["k", "v2"]) },
    ];
    let wire = encode_batch(&batch);
    match decode_payload(&wire) {
        Some(CommandPayload::Batch(argvs)) => {
            assert_eq!(argvs, vec![args(&["INCR", "x"]), args(&["SET", "k", "v2"])]);
        },
        other => panic!("unexpected {other:?}"),
    }

    // an empty batch decodes to an empty batch, and its collected
    // reply is the empty array
    let empty = encode_batch(&Vec::new());
    match decode_payload(&empty) {
        Some(CommandPayload::Batch(argvs)) => assert!(argvs.is_empty()),
        other => panic!("unexpected {other:?}"),
    }
    match collect_batch(Vec::new()) {
        Ok(Value::Array(items)) => assert!(items.is_empty()),
        other => panic!("unexpected {other:?}"),
    }

    assert!(decode_payload(&Vec::new()).is_none());
    assert!(decode_payload(&b"Zjunk".to_vec()).is_none());
}
