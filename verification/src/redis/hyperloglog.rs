//! The dense HyperLogLog register file: sixteen header bytes (magic,
//! encoding, a cached cardinality with an invalidation bit), then
//! 16384 six-bit registers packed little-endian. The register file and
//! its cache live here; turning the registers into a cardinality
//! estimate is numeric work that lives with the command modules.

use vstd::prelude::*;
use vstd::string::StringSliceAdditionalSpecFns;
use crate::numbers::{from_le_bytes, le_bytes, lemma_le_bytes_len, lemma_le_bytes_round_trip,
    lemma_u64_fits_8_bytes, push_u64_le, read_u64_le};
use crate::redis::error::RedisError;

verus! {

pub const HLL_REGISTERS: usize = 16384;

pub const HLL_DENSE_SIZE: usize = 12304;

/// A register index is in range and the byte file has its fixed size.
pub open spec fn hll_wf(s: Seq<u8>) -> bool {
    &&& s.len() == 12304
    &&& s[0] == 72
    &&& s[1] == 89
    &&& s[2] == 76
    &&& s[3] == 76
    &&& s[4] == 0
}

/// Where a register's low bits live, and at which bit offset.
pub open spec fn reg_byte(index: int) -> int {
    16 + index * 6 / 8
}

pub open spec fn reg_shift(index: int) -> int {
    (index * 6) % 8
}

/// The value of a six-bit register, read across a byte boundary.
pub open spec fn register_spec(s: Seq<u8>, index: int) -> u8 {
    let b0 = s[reg_byte(index)];
    let b1 = if reg_byte(index) + 1 < s.len() {
        s[reg_byte(index) + 1]
    } else {
        0
    };
    if reg_shift(index) == 0 {
        (b0 & 63) as u8
    } else {
        (((b0 >> (reg_shift(index) as u8)) | (b1 << ((8 - reg_shift(index)) as u8))) & 63) as u8
    }
}

/// The dense register file.
#[derive(Debug, Clone, PartialEq, Eq)]
pub struct DenseHyperLogLog {
    bytes: Vec<u8>,
}

impl View for DenseHyperLogLog {
    type V = Seq<u8>;

    closed spec fn view(&self) -> Seq<u8> {
        self.bytes@
    }
}

impl DenseHyperLogLog {
    /// Gives the byte file back.
    pub fn into_bytes(self) -> (r: Vec<u8>)
        ensures
            r@ == self@,
    {
        self.bytes
    }

    /// An empty register file with the magic header.
    pub fn new() -> (r: DenseHyperLogLog)
        ensures
            hll_wf(r@),
            forall|i: int| 16 <= i < 12304 ==> r@[i] == 0,
    {
        let mut bytes: Vec<u8> = Vec::new();
        let mut i: usize = 0;
        while i < HLL_DENSE_SIZE
            invariant
                i <= 12304,
                bytes@.len() == i,
                forall|j: int| 0 <= j < i ==> bytes@[j] == 0,
            decreases 12304 - i,
        {
            bytes.push(0);
            i = i + 1;
        }
        bytes.set(0, 72);
        bytes.set(1, 89);
        bytes.set(2, 76);
        bytes.set(3, 76);
        DenseHyperLogLog { bytes }
    }

    /// Takes a byte file from outside: the size, the magic and the
    /// dense encoding tag must match, else the value is of the wrong
    /// kind.
    pub fn from_untrusted_bytes(bytes: Vec<u8>) -> (r: Result<DenseHyperLogLog, RedisError>)
        ensures
            match r {
                Ok(h) => hll_wf(h@) && h@ == bytes@,
                Err(e) => !hll_wf(bytes@) && e == RedisError::WrongType,
            },
    {
        if bytes.len() != HLL_DENSE_SIZE {
            return Err(RedisError::WrongType);
        }
        if bytes[0] == 72 && bytes[1] == 89 && bytes[2] == 76 && bytes[3] == 76 && bytes[4] == 0 {
            Ok(DenseHyperLogLog { bytes })
        } else {
            Err(RedisError::WrongType)
        }
    }

    /// Reads one register.
    pub fn register(&self, index: usize) -> (r: u8)
        requires
            hll_wf(self@),
            index < 16384,
        ensures
            r == register_spec(self@, index as int),
            r < 64,
    {
        let byte_index: usize = 16 + index * 6 / 8;
        let fb: u8 = ((index * 6) % 8) as u8;
        let b0: u8 = self.bytes[byte_index];
        let b1: u8 = if byte_index + 1 < self.bytes.len() {
            self.bytes[byte_index + 1]
        } else {
            0
        };
        if fb == 0 {
            let r = b0 & 63;
            proof {
                assert(r < 64) by (bit_vector)
                    requires
                        r == b0 & 63,
                ;
            }
            r
        } else {
            let fb8: u8 = 8 - fb;
            let r = ((b0 >> fb) | (b1 << fb8)) & 63;
            proof {
                assert(r < 64) by (bit_vector)
                    requires
                        r == ((b0 >> fb) | (b1 << fb8)) & 63,
                ;
            }
            r
        }
    }

    /// Writes one register; the rest of the file keeps its bytes.
    pub fn set_register(&mut self, index: usize, value: u8)
        requires
            hll_wf(old(self)@),
            index < 16384,
            value < 64,
        ensures
            hll_wf(final(self)@),
            register_spec(final(self)@, index as int) == value,
            forall|j: int|
                0 <= j < 12304 && j != reg_byte(index as int) && j != reg_byte(index as int) + 1
                    ==> final(self)@[j] == old(self)@[j],
    {
        let byte_index: usize = 16 + index * 6 / 8;
        let fb: u8 = ((index * 6) % 8) as u8;
        let b0: u8 = self.bytes[byte_index];
        let nb0: u8 = if fb == 0 {
            (b0 & !63) | value
        } else {
            (b0 & !(63u8 << fb)) | (value << fb)
        };
        self.bytes.set(byte_index, nb0);
        if byte_index + 1 < HLL_DENSE_SIZE {
            let fb8: u8 = 8 - fb;
            let b1: u8 = self.bytes[byte_index + 1];
            let nb1: u8 = if fb == 0 {
                b1
            } else {
                (b1 & !(63u8 >> fb8)) | (value >> fb8)
            };
            self.bytes.set(byte_index + 1, nb1);
            proof {
                let fbi = (index * 6) % 8;
                if fbi == 0 {
                    assert(((nb0 & 63) as u8) == value) by (bit_vector)
                        requires
                            nb0 == (b0 & !63) | value,
                            value < 64,
                    ;
                } else {
                    let fb8x: u8 = (8 - fbi) as u8;
                    assert(((((nb0 >> fb) | (nb1 << fb8x)) & 63) as u8) == value)
                        by (bit_vector)
                        requires
                            nb0 == (b0 & !(63u8 << fb)) | (value << fb),
                            nb1 == (b1 & !(63u8 >> fb8x)) | (value >> fb8x),
                            fb8x == (8 - fb) as u8,
                            0 < fb < 8,
                            value < 64,
                    ;
                    assert(fb8x == (8 - fbi) as u8 && fb == fbi as u8);
                }
                assert(reg_shift(index as int) == fb as int);
                assert(reg_byte(index as int) == byte_index as int);
                assert(self@[byte_index as int] == nb0);
                assert(self@[byte_index + 1] == nb1);
                assert(register_spec(self@, index as int) == value);
            }
        } else {
            proof {
                assert(index == 16383);
                assert(reg_byte(index as int) == 12303);
                let fbi = (index * 6) % 8;
                assert(fbi == 2) by {
                    assert(16383 * 6 == 98298);
                };
                assert((((nb0 >> 2) | (0u8 << 6)) & 63) as u8 == value) by (bit_vector)
                    requires
                        nb0 == (b0 & !(63u8 << 2)) | (value << 2),
                        value < 64,
                ;
                assert(fb == 2);
                assert(reg_shift(index as int) == 2);
                assert(self@[12303] == nb0);
                assert(register_spec(self@, index as int) == value);
            }
        }
    }

    /// The cached cardinality, unless the invalidation bit is set.
    pub fn cardinality_cache(&self) -> (r: Option<u64>)
        requires
            hll_wf(self@),
        ensures
            match r {
                Some(v) => self@[15] & 128 == 0 && v == from_le_bytes(self@.subrange(8, 16)),
                None => self@[15] & 128 != 0,
            },
    {
        if self.bytes[15] & 128 == 0 {
            let v = read_u64_le(&self.bytes, 8);
            Some(v)
        } else {
            None
        }
    }

    /// Marks the cache stale.
    pub fn invalidate_cardinality_cache(&mut self)
        requires
            hll_wf(old(self)@),
        ensures
            hll_wf(final(self)@),
            final(self)@[15] & 128 != 0,
            forall|j: int| 0 <= j < 12304 && j != 15 ==> final(self)@[j] == old(self)@[j],
    {
        let b: u8 = self.bytes[15];
        let nb: u8 = b | 128;
        self.bytes.set(15, nb);
        proof {
            assert(nb & 128 != 0) by (bit_vector)
                requires
                    nb == b | 128,
            ;
        }
    }

    /// Stores a fresh cardinality in the cache, marking it valid.
    pub fn set_cardinality_cache(&mut self, cardinality: u64)
        requires
            hll_wf(old(self)@),
            cardinality < 9223372036854775808,
        ensures
            hll_wf(final(self)@),
            forall|j: int| 0 <= j < 8 ==> final(self)@[j] == old(self)@[j],
            forall|j: int| 16 <= j < 12304 ==> final(self)@[j] == old(self)@[j],
            from_le_bytes(final(self)@.subrange(8, 16)) == cardinality,
            final(self)@[15] & 128 == 0,
    {
        let mut le: Vec<u8> = Vec::new();
        push_u64_le(&mut le, cardinality);
        proof {
            lemma_le_bytes_len(cardinality as nat, 8);
            assert(self@.subrange(8, 8) =~= le@.take(0));
        }
        let mut k: usize = 0;
        while k < 8
            invariant
                k <= 8,
                le@ == le_bytes(cardinality as nat, 8),
                le@.len() == 8,
                self@.len() == 12304,
                old(self)@.len() == 12304,
                hll_wf(old(self)@),
                forall|j: int| 0 <= j < 8 ==> self@[j] == old(self)@[j],
                forall|j: int| 16 <= j < 12304 ==> self@[j] == old(self)@[j],
                self@.subrange(8, 8 + k as int) == le@.take(k as int),
            decreases 8 - k,
        {
            let b: u8 = le[k];
            self.bytes.set(8 + k, b);
            proof {
                assert(self@.subrange(8, 8 + (k + 1)) =~= le@.take(k + 1));
            }
            k = k + 1;
        }
        proof {
            assert(le@.take(8) =~= le@);
            assert(self@.subrange(8, 16) =~= le_bytes(cardinality as nat, 8));
            lemma_u64_fits_8_bytes(cardinality);
            lemma_le_bytes_round_trip(cardinality as nat, 8);
            let top = self@[15];
            let lb = le_bytes(cardinality as nat, 8)[7];
            assert(self@[15] == le_bytes(cardinality as nat, 8)[7]);
            assert(le_bytes(cardinality as nat, 8)[7] == ((cardinality as nat) / 72057594037927936
                % 256) as u8) by {
                reveal_with_fuel(crate::numbers::le_bytes, 9);
            };
            assert((cardinality as nat) / 72057594037927936 % 256 < 128);
            assert(top & 128 == 0) by (bit_vector)
                requires
                    top < 128,
            ;
        }
    }
}

/// The flat one-byte-per-register working form used while merging.
#[derive(Debug, Clone, PartialEq, Eq)]
pub struct RawHyperLogLog {
    registers: Vec<u8>,
}

impl View for RawHyperLogLog {
    type V = Seq<u8>;

    closed spec fn view(&self) -> Seq<u8> {
        self.registers@
    }
}

impl RawHyperLogLog {
    pub fn new() -> (r: RawHyperLogLog)
        ensures
            r@.len() == 16384,
            forall|i: int| 0 <= i < 16384 ==> r@[i] == 0,
    {
        let mut registers: Vec<u8> = Vec::new();
        let mut i: usize = 0;
        while i < HLL_REGISTERS
            invariant
                i <= 16384,
                registers@.len() == i,
                forall|j: int| 0 <= j < i ==> registers@[j] == 0,
            decreases 16384 - i,
        {
            registers.push(0);
            i = i + 1;
        }
        RawHyperLogLog { registers }
    }

    /// Takes, register by register, the larger of this file's value
    /// and the dense file's.
    pub fn merge_dense(&mut self, dense: &DenseHyperLogLog)
        requires
            old(self)@.len() == 16384,
            hll_wf(dense@),
        ensures
            final(self)@.len() == 16384,
            forall|i: int|
                0 <= i < 16384 ==> final(self)@[i] == (if register_spec(dense@, i) > old(self)@[i] {
                    register_spec(dense@, i)
                } else {
                    old(self)@[i]
                }),
    {
        let mut i: usize = 0;
        while i < HLL_REGISTERS
            invariant
                i <= 16384,
                self@.len() == 16384,
                hll_wf(dense@),
                forall|j: int|
                    0 <= j < i ==> self@[j] == (if register_spec(dense@, j) > old(self)@[j] {
                        register_spec(dense@, j)
                    } else {
                        old(self)@[j]
                    }),
                forall|j: int| i <= j < 16384 ==> self@[j] == old(self)@[j],
            decreases 16384 - i,
        {
            let count = dense.register(i);
            if count > self.registers[i] {
                self.registers.set(i, count);
            }
            i = i + 1;
        }
    }
}

impl DenseHyperLogLog {
    /// Folds one element in: the hash picks a register and a rank, and
    /// the register keeps the largest rank seen. Reports whether the
    /// register grew (and the cache was invalidated).
    pub fn add(&mut self, element: &Vec<u8>) -> (r: bool)
        requires
            hll_wf(old(self)@),
        ensures
            hll_wf(final(self)@),
            !r ==> final(self)@ == old(self)@,
            r ==> final(self)@ != old(self)@,
    {
        let hash = murmur_hash64a(element, 0xadc83b19);
        proof {
            assert(hash & 0x3fff < 16384) by (bit_vector);
            assert((hash >> 14) | (1u64 << 50) != 0) by (bit_vector);
        }
        let index: usize = (hash & 0x3fff) as usize;
        let rest: u64 = (hash >> 14) | (1u64 << 50);
        let tz: u32 = trailing_zeros_u64(rest);
        proof {
            // bit 50 is set, so at most 50 low bits are zero and the
            // rank stays below the register ceiling
            let h = hash;
            let t = tz;
            if tz < 63 {
                assert(((((h >> 14) | (1u64 << 50)) >> t) & 1 == 1) ==> t <= 50) by (bit_vector);
                assert(tz <= 50);
            } else {
                assert((((h >> 14) | (1u64 << 50)) >> 50u32) & 1 == 1) by (bit_vector);
                assert(50u32 < tz);
                assert(false);
            }
        }
        let count: u8 = (tz + 1) as u8;
        let current = self.register(index);
        if count > current {
            self.set_register(index, count);
            self.invalidate_cardinality_cache();
            proof {
                assert(register_spec(self@, index as int) == count);
                assert(count != current);
                assert(self@ != old(self)@);
            }
            true
        } else {
            false
        }
    }

    /// Copies every register of the flat working form in, then marks
    /// the cache stale.
    pub fn copy_registers_from_raw(&mut self, raw: &RawHyperLogLog)
        requires
            hll_wf(old(self)@),
            raw@.len() == 16384,
            forall|i: int| 0 <= i < 16384 ==> raw@[i] < 64,
        ensures
            hll_wf(final(self)@),
    {
        let mut i: usize = 0;
        while i < HLL_REGISTERS
            invariant
                i <= 16384,
                hll_wf(self@),
                raw@.len() == 16384,
                forall|j: int| 0 <= j < 16384 ==> raw@[j] < 64,
            decreases 16384 - i,
        {
            let v: u8 = raw.read_register(i);
            self.set_register(i, v);
            i = i + 1;
        }
        self.invalidate_cardinality_cache();
    }
}

impl RawHyperLogLog {
    /// Reads one flat register.
    pub fn read_register(&self, index: usize) -> (r: u8)
        requires
            self@.len() == 16384,
            index < 16384,
        ensures
            r == self@[index as int],
    {
        self.registers[index]
    }
}

/// How many low zero bits the value carries; the value must not be
/// zero.
pub fn trailing_zeros_u64(x: u64) -> (r: u32)
    requires
        x != 0,
    ensures
        r < 64,
        r < 63 ==> (x >> r) & 1 == 1,
        forall|k: u32| k < r ==> (#[trigger] (x >> k)) & 1 == 0,
{
    let mut r: u32 = 0;
    let mut v: u64 = x;
    proof {
        assert(x >> 0u32 == x) by (bit_vector);
    }
    while v & 1 == 0 && r < 63
        invariant
            r < 64,
            v == x >> r,
            forall|k: u32| k < r ==> (#[trigger] (x >> k)) & 1 == 0,
        decreases 64 - r,
    {
        proof {
            let rr = r;
            let vv = v;
            assert(vv >> 1 == x >> ((rr + 1) as u32)) by (bit_vector)
                requires
                    vv == x >> rr,
                    rr < 63,
            ;
        }
        v = v >> 1;
        r = r + 1;
    }
    proof {
        if r < 63 {
            let rr = r;
            let vv = v;
            assert((x >> rr) & 1 == 1) by (bit_vector)
                requires
                    vv == x >> rr,
                    !(vv & 1 == 0),
            ;
        }
    }
    r
}

/// The 64-bit MurmurHash variant the register selection uses.
pub fn murmur_hash64a(key: &Vec<u8>, seed: u64) -> (r: u64) {
    let m: u64 = 0xc6a4a7935bd1e995;
    let len: usize = key.len();
    let mut h: u64 = seed ^ ((len as u64).wrapping_mul(m));
    let low: usize = len % 8;
    let end: usize = len - low;
    let mut i: usize = 0;
    while i < end
        invariant
            end <= key@.len(),
            i % 8 == 0,
            end % 8 == 0,
            i <= end,
        decreases end - i,
    {
        if i + 7 < key.len() {
            let mut k: u64 = (key[i] as u64) | ((key[i + 1] as u64) << 8) | ((key[i + 2] as u64)
                << 16) | ((key[i + 3] as u64) << 24) | ((key[i + 4] as u64) << 32) | ((key[i
                + 5] as u64) << 40) | ((key[i + 6] as u64) << 48) | ((key[i + 7] as u64) << 56);
            k = k.wrapping_mul(m);
            k = k ^ (k >> 47);
            k = k.wrapping_mul(m);
            h = h ^ k;
            h = h.wrapping_mul(m);
        }
        i = i + 8;
    }
    let remainder: usize = len % 8;
    if remainder == 7 && i + 6 < len {
        h = h ^ ((key[i + 6] as u64) << 48);
    }
    if remainder >= 6 && i + 5 < len {
        h = h ^ ((key[i + 5] as u64) << 40);
    }
    if remainder >= 5 && i + 4 < len {
        h = h ^ ((key[i + 4] as u64) << 32);
    }
    if remainder >= 4 && i + 3 < len {
        h = h ^ ((key[i + 3] as u64) << 24);
    }
    if remainder >= 3 && i + 2 < len {
        h = h ^ ((key[i + 2] as u64) << 16);
    }
    if remainder >= 2 && i + 1 < len {
        h = h ^ ((key[i + 1] as u64) << 8);
    }
    if remainder >= 1 && i < len {
        h = h ^ (key[i] as u64);
        h = h.wrapping_mul(m);
    }
    h = h ^ (h >> 47);
    h = h.wrapping_mul(m);
    h = h ^ (h >> 47);
    h
}

} // verus!
