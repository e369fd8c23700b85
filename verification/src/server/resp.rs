//! The reply values of the connection layer and their wire encoding.

use vstd::prelude::*;
use vstd::string::StringSliceAdditionalSpecFns;
use crate::numbers::{dec_digits, dec_int, push_dec_i64, push_dec_u64};
use crate::redis::error::{push_bytes, push_str_bytes};

verus! {

/// A reply value, errors carried inline as text.
#[derive(Debug, PartialEq, Eq)]
pub enum RedisValue {
    Null,
    SimpleString(Vec<u8>),
    Error(Vec<u8>),
    Integer(i64),
    BulkString(Vec<u8>),
    Array(Vec<RedisValue>),
}

impl RedisValue {
    /// The customary `OK` reply.
    pub fn ok() -> (r: RedisValue)
        ensures
            match r {
                RedisValue::SimpleString(s) => s@ == "OK".spec_bytes(),
                _ => false,
            },
    {
        let mut s: Vec<u8> = Vec::new();
        push_str_bytes(&mut s, "OK");
        RedisValue::SimpleString(s)
    }
}

/// The wire encoding of a reply value.
pub open spec fn encode_value_bytes(v: RedisValue) -> Seq<u8>
    decreases v,
{
    match v {
        RedisValue::Null => "$-1".spec_bytes() + seq![13u8, 10u8],
        RedisValue::SimpleString(s) => seq![43u8] + s@ + seq![13u8, 10u8],
        RedisValue::Error(s) => seq![45u8] + s@ + seq![13u8, 10u8],
        RedisValue::Integer(i) => seq![58u8] + dec_int(i as int) + seq![13u8, 10u8],
        RedisValue::BulkString(s) => seq![36u8] + dec_digits(s@.len()) + seq![13u8, 10u8] + s@
            + seq![13u8, 10u8],
        RedisValue::Array(items) => seq![42u8] + dec_digits(items@.len()) + seq![13u8, 10u8]
            + encode_values_bytes(items@),
    }
}

pub open spec fn encode_values_bytes(items: Seq<RedisValue>) -> Seq<u8>
    decreases items, items.len(),
{
    if items.len() == 0 {
        Seq::empty()
    } else {
        encode_value_bytes(items[0]) + encode_values_bytes(items.skip(1))
    }
}

/// The reply encoder of the connection layer.
#[derive(Debug, Clone, Copy, PartialEq, Eq, Structural)]
pub struct ResponseEncoder {
}

impl ResponseEncoder {
    /// Appends the wire form of one reply.
    pub fn encode(&self, item: &RedisValue, dst: &mut Vec<u8>)
        ensures
            final(dst)@ == old(dst)@ + encode_value_bytes(*item),
    {
        encode(item, dst);
    }
}

/// Appends the wire form of one reply value.
pub fn encode(value: &RedisValue, out: &mut Vec<u8>)
    ensures
        final(out)@ == old(out)@ + encode_value_bytes(*value),
    decreases *value,
{
    match value {
        RedisValue::Null => {
            push_str_bytes(out, "$-1");
            out.push(13);
            out.push(10);
        },
        RedisValue::SimpleString(s) => {
            out.push(43);
            push_bytes(out, s);
            out.push(13);
            out.push(10);
        },
        RedisValue::Error(s) => {
            out.push(45);
            push_bytes(out, s);
            out.push(13);
            out.push(10);
        },
        RedisValue::Integer(i) => {
            out.push(58);
            push_dec_i64(out, *i);
            out.push(13);
            out.push(10);
        },
        RedisValue::BulkString(s) => {
            out.push(36);
            push_dec_u64(out, s.len() as u64);
            out.push(13);
            out.push(10);
            push_bytes(out, s);
            out.push(13);
            out.push(10);
        },
        RedisValue::Array(items) => {
            out.push(42);
            push_dec_u64(out, items.len() as u64);
            out.push(13);
            out.push(10);
            encode_values(items, 0, out);
            proof {
                assert(items@.skip(0) =~= items@);
            }
        },
    }
    proof {
        assert(out@ =~= old(out)@ + encode_value_bytes(*value));
    }
}

/// Appends the members of an array from `from` on.
pub fn encode_values(items: &Vec<RedisValue>, from: usize, out: &mut Vec<u8>)
    requires
        from <= items@.len(),
    ensures
        final(out)@ == old(out)@ + encode_values_bytes(items@.skip(from as int)),
    decreases items@, items@.len() - from,
{
    if from < items.len() {
        encode(&items[from], out);
        encode_values(items, from + 1, out);
        proof {
            assert(items@.skip(from as int)[0] == items@[from as int]);
            assert(items@.skip(from as int).skip(1) =~= items@.skip(from + 1));
            assert(out@ =~= old(out)@ + encode_values_bytes(items@.skip(from as int)));
        }
    } else {
        proof {
            assert(items@.skip(from as int) =~= Seq::<RedisValue>::empty());
            assert(out@ =~= old(out)@ + encode_values_bytes(items@.skip(from as int)));
        }
    }
}

} // verus!
