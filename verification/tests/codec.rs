//! Byte-level codecs: the persistent log format, the RESP wire format,
//! the decimal and little-endian helpers, and the HyperLogLog register
//! file.

use zakros::numbers::{push_dec_i64, push_dec_u64, push_u64_le, read_u64_le};
use zakros::raft::codec::{append_frame, decode_entry, decode_metadata, encode_entry,
    encode_metadata, scan_log};
use zakros::raft::storage::MemoryStorage;
use zakros::raft::types::{Entry, EntryKind, Metadata, NodeId};
use zakros::redis::error::{RedisError, ResponseError};
use zakros::redis::resp::{encode, RespCodec, Value};
use zakros::redis::string::split_args;
use zakros::redis::hyperloglog::{DenseHyperLogLog, RawHyperLogLog};
use rand_xoshiro::rand_core::{RngCore, SeedableRng};
use rand_xoshiro::Xoshiro256PlusPlus;

fn bytes(s: &str) -> Vec<u8> {
    s.as_bytes().to_vec()
}

#[test]
fn little_endian_round_trip() {
    let mut out = Vec::new();
    push_u64_le(&mut out, 0x0123456789abcdef);
    assert_eq!(out, vec![0xef, 0xcd, 0xab, 0x89, 0x67, 0x45, 0x23, 0x01]);
    assert_eq!(read_u64_le(&out, 0), 0x0123456789abcdef);
}

#[test]
fn decimal_forms() {
    let mut out = Vec::new();
    push_dec_u64(&mut out, 0);
    push_dec_u64(&mut out, 10507);
    push_dec_i64(&mut out, -42);
    push_dec_i64(&mut out, i64::MIN);
    assert_eq!(out, b"010507-42-9223372036854775808".to_vec());
}

#[test]
fn entry_codec_round_trip() {
    let entries = vec![
        Entry { kind: EntryKind::NoOp, term: 7 },
        Entry { kind: EntryKind::Command(bytes("SET foo bar")), term: 8 },
        Entry { kind: EntryKind::AddNode { node_id: NodeId(3), addr: bytes("h:1") }, term: 9 },
        Entry { kind: EntryKind::RemoveNode(NodeId(4)), term: 9 },
    ];
    for e in &entries {
        let encoded = encode_entry(e);
        let decoded = decode_entry(&encoded).expect("decodes");
        assert_eq!(&decoded, e);
    }
}

#[test]
fn metadata_codec_round_trip() {
    for m in [
        Metadata { current_term: 0, voted_for: None },
        Metadata { current_term: 12, voted_for: Some(NodeId(2)) },
    ] {
        let encoded = encode_metadata(&m);
        assert_eq!(decode_metadata(&encoded), Some(m));
    }
}

#[test]
fn log_file_scan_round_trip() {
    let entries = vec![
        Entry { kind: EntryKind::NoOp, term: 1 },
        Entry { kind: EntryKind::Command(bytes("a")), term: 1 },
        Entry { kind: EntryKind::Command(bytes("bb")), term: 2 },
    ];
    let mut file = Vec::new();
    for e in &entries {
        append_frame(&mut file, e);
    }
    let scanned = scan_log(&file);
    assert_eq!(scanned, entries);

    // a cut-short final frame is ignored: what was flushed survives
    let mut truncated = file.clone();
    truncated.extend_from_slice(&[5, 0, 0, 0]);
    assert_eq!(scan_log(&truncated), entries);
}

#[test]
fn resp_encode_forms() {
    let mut out = Vec::new();
    encode(&Ok(Value::SimpleString(bytes("OK"))), &mut out);
    assert_eq!(out, b"+OK\r\n".to_vec());

    let mut out = Vec::new();
    encode(&Ok(Value::BulkString(bytes("bar"))), &mut out);
    assert_eq!(out, b"$3\r\nbar\r\n".to_vec());

    let mut out = Vec::new();
    encode(&Ok(Value::Null), &mut out);
    assert_eq!(out, b"$-1\r\n".to_vec());

    let mut out = Vec::new();
    encode(&Ok(Value::Integer(-7)), &mut out);
    assert_eq!(out, b":-7\r\n".to_vec());

    let mut out = Vec::new();
    encode(
        &Ok(Value::Array(vec![Ok(Value::Integer(1)), Ok(Value::Integer(2))])),
        &mut out,
    );
    assert_eq!(out, b"*2\r\n:1\r\n:2\r\n".to_vec());

    let mut out = Vec::new();
    encode(&Err(RedisError::Response(ResponseError::SyntaxError)), &mut out);
    assert_eq!(out, b"-ERR syntax error\r\n".to_vec());
}

#[test]
fn resp_decode_multibulk() {
    let mut codec = RespCodec::new();
    let mut buf = b"*2\r\n$3\r\nGET\r\n$3\r\nfoo\r\ntail".to_vec();
    let frame = codec.decode(&mut buf).expect("well formed").expect("complete");
    assert_eq!(frame, vec![bytes("GET"), bytes("foo")]);
    assert_eq!(buf, b"tail".to_vec());

    // a partial frame consumes nothing
    let mut partial = b"*2\r\n$3\r\nGE".to_vec();
    assert_eq!(codec.decode(&mut partial), Ok(None));
    assert_eq!(partial, b"*2\r\n$3\r\nGE".to_vec());

    // a non-positive count is an empty command
    let mut neg = b"*-1\r\nrest".to_vec();
    let frame = codec.decode(&mut neg).expect("well formed").expect("complete");
    assert!(frame.is_empty());
    assert_eq!(neg, b"rest".to_vec());

    // a malformed count is a protocol error
    let mut bad = b"*x\r\n$1\r\na\r\n".to_vec();
    assert!(codec.decode(&mut bad).is_err());
}

#[test]
fn resp_encode_then_decode_gives_the_argv_back() {
    // a request-shaped reply decodes to the argv it encodes
    let argv = [bytes("SET"), bytes("key with \r\n inside"), bytes("v")];
    let reply = Value::Array(argv.iter().map(|a| Ok(Value::BulkString(a.clone()))).collect());
    let mut wire = Vec::new();
    encode(&Ok(reply), &mut wire);
    let mut codec = RespCodec::new();
    let frame = codec.decode(&mut wire).expect("well formed").expect("complete");
    assert_eq!(frame.as_slice(), &argv);
    assert!(wire.is_empty());
}

#[test]
fn resp_decode_inline() {
    let mut codec = RespCodec::new();
    let mut buf = b"SET greeting \"hello\\x21\"\n*next".to_vec();
    let frame = codec.decode(&mut buf).expect("well formed").expect("complete");
    assert_eq!(frame, vec![bytes("SET"), bytes("greeting"), bytes("hello!")]);
    assert_eq!(buf, b"*next".to_vec());

    let mut unbalanced = b"oops \"unclosed\n".to_vec();
    assert!(codec.decode(&mut unbalanced).is_err());
}

#[test]
fn split_args_forms() {
    let toks = split_args(&bytes("  one 'two three' \"f\\x6Fur\"  ")).expect("balanced");
    assert_eq!(toks, vec![bytes("one"), bytes("two three"), bytes("four")]);
    assert_eq!(split_args(&bytes("")).expect("empty"), Vec::<Vec<u8>>::new());
    assert!(split_args(&bytes("a 'b")).is_err());
    assert!(split_args(&bytes("\"a\"b")).is_err());
    // a closing quote ends its token; any separator may follow
    let toks = split_args(&b"\"a\"\x0bb".to_vec()).expect("balanced");
    assert_eq!(toks, vec![bytes("a"), bytes("b")]);
}

#[test]
fn error_lines() {
    assert_eq!(
        RedisError::WrongType.message_bytes(),
        b"WRONGTYPE Operation against a key holding the wrong kind of value".to_vec()
    );
    assert_eq!(
        RedisError::ExecAbort.message_bytes(),
        b"EXECABORT Transaction discarded because of previous errors.".to_vec()
    );
    assert_eq!(
        RedisError::Moved { slot: 0, host: bytes("127.0.0.1"), port: 6380 }.message_bytes(),
        b"MOVED 0 127.0.0.1:6380".to_vec()
    );
    assert_eq!(
        RedisError::ClusterDown(bytes("No leader")).message_bytes(),
        b"CLUSTERDOWN No leader".to_vec()
    );
    assert_eq!(
        RedisError::Response(ResponseError::UnknownCommand(bytes("NOSUCHCMD"))).message_bytes(),
        b"ERR unknown command 'NOSUCHCMD'".to_vec()
    );
}

#[test]
fn registers() {
    const HLL_TEST_CYCLES: usize = 1000;
    const HLL_REGISTERS: usize = 16384;

    let mut hll = DenseHyperLogLog::new();
    let mut rng = Xoshiro256PlusPlus::seed_from_u64(42);
    for _ in 0..HLL_TEST_CYCLES {
        let mut byte_counters = Vec::with_capacity(HLL_REGISTERS);
        for i in 0..HLL_REGISTERS {
            let r = rng.next_u32() as u8 & 63;
            byte_counters.push(r);
            hll.set_register(i, r);
        }
        for (i, byte_counter) in byte_counters.into_iter().enumerate() {
            assert_eq!(hll.register(i), byte_counter);
        }
    }
}

/// The numeric estimate over a register file, as the counting command
/// computes it outside the verified core.
fn estimate(hll: &DenseHyperLogLog) -> u64 {
    const HLL_REGISTERS: usize = 16384;
    const HLL_Q: usize = 50;
    const HLL_ALPHA_INF: f64 = 0.7213475204444817;

    fn sigma(mut x: f64) -> f64 {
        if x == 1.0 {
            return f64::INFINITY;
        }
        let mut y = 1.0;
        let mut z = x;
        loop {
            x *= x;
            let z_prime = z;
            z += x * y;
            y += y;
            if z_prime == z {
                return z;
            }
        }
    }

    fn tau(mut x: f64) -> f64 {
        if x == 0.0 || x == 1.0 {
            return 0.0;
        }
        let mut y = 1.0;
        let mut z = 1.0 - x;
        loop {
            x = x.sqrt();
            let z_prime = z;
            y *= 0.5;
            z -= f64::powf(1.0 - x, 2.0) * y;
            if z_prime == z {
                return z / 3.0;
            }
        }
    }

    let mut histogram = [0u16; 64];
    for i in 0..HLL_REGISTERS {
        histogram[hll.register(i) as usize] += 1;
    }
    const M: f64 = HLL_REGISTERS as f64;
    let mut z = M * tau((M - histogram[HLL_Q + 1] as f64) / M);
    for &freq in histogram[1..=HLL_Q].iter().rev() {
        z += freq as f64;
        z *= 0.5;
    }
    z += M * sigma(histogram[0] as f64 / M);
    (HLL_ALPHA_INF * M * M / z).round() as u64
}

#[test]
fn approximation_error() {
    const SEED: i64 = 42;

    let mut hll = DenseHyperLogLog::new();
    let rel_err: f64 = 1.04 / (16384 as f64).sqrt();
    let mut checkpoint = 1;
    for i in 1..=10000000i64 {
        hll.add(&(i ^ SEED).to_le_bytes().to_vec());
        if i != checkpoint {
            continue;
        }
        let abs_err = (i - estimate(&hll) as i64).unsigned_abs();
        let max_err = if i == 10 {
            1
        } else {
            (rel_err * 6.0 * checkpoint as f64).ceil() as u64
        };
        assert!(abs_err <= max_err);
        checkpoint *= 10;
    }
}

#[test]
fn raw_merge_takes_the_larger_register() {
    let mut dense = DenseHyperLogLog::new();
    dense.set_register(0, 5);
    dense.set_register(1, 1);
    dense.set_register(16383, 9);
    let mut raw = RawHyperLogLog::new();
    raw.merge_dense(&dense);
    let mut dense2 = DenseHyperLogLog::new();
    dense2.copy_registers_from_raw(&raw);
    assert_eq!(dense2.register(0), 5);
    assert_eq!(dense2.register(1), 1);
    assert_eq!(dense2.register(16383), 9);
    assert_eq!(dense2.register(2), 0);
}

#[test]
fn hll_byte_file_round_trip() {
    let mut hll = DenseHyperLogLog::new();
    hll.add(&b"alpha".to_vec());
    hll.add(&b"beta".to_vec());
    let bytes = hll.into_bytes();
    let back = DenseHyperLogLog::from_untrusted_bytes(bytes).expect("well formed");
    assert!(back.cardinality_cache().is_none());
    assert!(DenseHyperLogLog::from_untrusted_bytes(vec![0; 3]).is_err());
}

#[test]
fn log_store_append_read_truncate() {
    let mut store = MemoryStorage::new();
    let batch = vec![
        Entry { kind: EntryKind::Command(bytes("one")), term: 1 },
        Entry { kind: EntryKind::Command(bytes("two")), term: 1 },
        Entry { kind: EntryKind::Command(bytes("three")), term: 2 },
    ];
    store.append_entries(&batch).unwrap();

    // reads come back in append order
    assert_eq!(store.entries(1).unwrap(), batch);
    assert_eq!(store.entry(2).unwrap().unwrap(), batch[1]);
    assert_eq!(store.entries(3).unwrap(), batch[2..].to_vec());
    assert_eq!(store.entries(4).unwrap(), Vec::<Entry>::new());
    assert_eq!(store.last_term().unwrap(), 2);

    // truncation keeps exactly the prefix below the cut
    store.truncate_entries(2).unwrap();
    assert_eq!(store.entries(1).unwrap(), batch[..1].to_vec());
    assert_eq!(store.entry(2).unwrap(), None);
    assert_eq!(store.current_index(), 1);
}
