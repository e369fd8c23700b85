//! Byte-level codecs for integers: fixed-width little-endian framing for
//! the persistent log, and decimal strings for the RESP wire format.

use vstd::prelude::*;

verus! {

/// The little-endian bytes of `n`, `k` bytes long, low byte first.
pub open spec fn le_bytes(n: nat, k: nat) -> Seq<u8>
    decreases k,
{
    if k == 0 {
        Seq::empty()
    } else {
        seq![(n % 256) as u8] + le_bytes(n / 256, (k - 1) as nat)
    }
}

/// The number read back from little-endian bytes, low byte first.
pub open spec fn from_le_bytes(s: Seq<u8>) -> nat
    decreases s.len(),
{
    if s.len() == 0 {
        0
    } else {
        (s[0] + 256 * from_le_bytes(s.skip(1))) as nat
    }
}

pub proof fn lemma_le_bytes_len(n: nat, k: nat)
    ensures
        le_bytes(n, k).len() == k,
    decreases k,
{
    if k > 0 {
        lemma_le_bytes_len(n / 256, (k - 1) as nat);
    }
}

/// Reading back the little-endian bytes of `n` yields `n`, as long as
/// `n` fits in `k` bytes.
pub proof fn lemma_le_bytes_round_trip(n: nat, k: nat)
    requires
        n < pow256(k),
    ensures
        from_le_bytes(le_bytes(n, k)) == n,
    decreases k,
{
    if k == 0 {
    } else {
        let rest = le_bytes(n / 256, (k - 1) as nat);
        assert(le_bytes(n, k).skip(1) =~= rest);
        assert(n / 256 < pow256((k - 1) as nat)) by {
            assert(pow256(k) == 256 * pow256((k - 1) as nat));
        };
        lemma_le_bytes_round_trip(n / 256, (k - 1) as nat);
        assert(n == 256 * (n / 256) + n % 256) by (nonlinear_arith);
    }
}

/// Any 64-bit value fits in eight bytes.
pub proof fn lemma_u64_fits_8_bytes(n: u64)
    ensures
        (n as nat) < pow256(8),
{
    reveal_with_fuel(pow256, 9);
}

pub open spec fn pow256(k: nat) -> nat
    decreases k,
{
    if k == 0 {
        1
    } else {
        256 * pow256((k - 1) as nat)
    }
}

/// Appends the eight little-endian bytes of `n` to `out`.
pub fn push_u64_le(out: &mut Vec<u8>, n: u64)
    ensures
        final(out)@ == old(out)@ + le_bytes(n as nat, 8),
{
    proof {
        reveal_with_fuel(le_bytes, 9);
    }
    let mut x: u64 = n;
    out.push((x % 256) as u8);
    x = x / 256;
    out.push((x % 256) as u8);
    x = x / 256;
    out.push((x % 256) as u8);
    x = x / 256;
    out.push((x % 256) as u8);
    x = x / 256;
    out.push((x % 256) as u8);
    x = x / 256;
    out.push((x % 256) as u8);
    x = x / 256;
    out.push((x % 256) as u8);
    x = x / 256;
    out.push((x % 256) as u8);
    proof {
        assert(out@ =~= old(out)@ + le_bytes(n as nat, 8));
    }
}

/// Reads a `u64` from the eight little-endian bytes at `at`.
pub fn read_u64_le(buf: &Vec<u8>, at: usize) -> (r: u64)
    requires
        at + 8 <= buf@.len(),
    ensures
        r == from_le_bytes(buf@.subrange(at as int, at + 8)),
        r < pow256(8),
{
    let blen: usize = buf.len();
    let b0: u64 = buf[at] as u64;
    let b1: u64 = buf[at + 1] as u64;
    let b2: u64 = buf[at + 2] as u64;
    let b3: u64 = buf[at + 3] as u64;
    let b4: u64 = buf[at + 4] as u64;
    let b5: u64 = buf[at + 5] as u64;
    let b6: u64 = buf[at + 6] as u64;
    let b7: u64 = buf[at + 7] as u64;
    proof {
        reveal_with_fuel(from_le_bytes, 9);
        reveal_with_fuel(pow256, 9);
        let s = buf@.subrange(at as int, at + 8);
        assert(s.skip(1) =~= buf@.subrange(at + 1, at + 8));
        assert(s.skip(1).skip(1) =~= buf@.subrange(at + 2, at + 8));
        assert(s.skip(1).skip(1).skip(1) =~= buf@.subrange(at + 3, at + 8));
        assert(s.skip(1).skip(1).skip(1).skip(1) =~= buf@.subrange(at + 4, at + 8));
        assert(s.skip(1).skip(1).skip(1).skip(1).skip(1) =~= buf@.subrange(at + 5, at + 8));
        assert(s.skip(1).skip(1).skip(1).skip(1).skip(1).skip(1) =~= buf@.subrange(
            at + 6,
            at + 8,
        ));
        assert(s.skip(1).skip(1).skip(1).skip(1).skip(1).skip(1).skip(1) =~= buf@.subrange(
            at + 7,
            at + 8,
        ));
        assert(s.skip(1).skip(1).skip(1).skip(1).skip(1).skip(1).skip(1).skip(1) =~= buf@.subrange(
            at + 8,
            at + 8,
        ));
        assert(buf@.subrange(at + 8, at + 8).len() == 0);
    }
    b0 + b1 * 256 + b2 * 65536 + b3 * 16777216 + b4 * 4294967296 + b5 * 1099511627776 + b6
        * 281474976710656 + b7 * 72057594037927936
}

/// The decimal digits of `n`, most significant first, no sign and no
/// leading zeros (a single `0` for zero).
pub open spec fn dec_digits(n: nat) -> Seq<u8>
    decreases n,
{
    if n < 10 {
        seq![(48 + n) as u8]
    } else {
        dec_digits(n / 10) + seq![(48 + n % 10) as u8]
    }
}

/// The decimal form of a signed number: a `-` sign for negatives,
/// then the digits of the magnitude.
pub open spec fn dec_int(i: int) -> Seq<u8> {
    if i >= 0 {
        dec_digits(i as nat)
    } else {
        seq![45u8] + dec_digits((-i) as nat)
    }
}

/// Appends the decimal digits of `n` to `out`.
pub fn push_dec_u64(out: &mut Vec<u8>, n: u64)
    ensures
        final(out)@ == old(out)@ + dec_digits(n as nat),
    decreases n,
{
    if n < 10 {
        out.push(48 + n as u8);
        proof {
            assert(out@ =~= old(out)@ + dec_digits(n as nat));
        }
    } else {
        push_dec_u64(out, n / 10);
        out.push(48 + (n % 10) as u8);
        proof {
            assert(out@ =~= old(out)@ + dec_digits(n as nat));
        }
    }
}

/// Appends the decimal form of `i`, sign included, to `out`.
pub fn push_dec_i64(out: &mut Vec<u8>, i: i64)
    ensures
        final(out)@ == old(out)@ + dec_int(i as int),
{
    if i >= 0 {
        push_dec_u64(out, i as u64);
    } else {
        out.push(45);
        let magnitude: u64 = if i == i64::MIN {
            9223372036854775808u64
        } else {
            (-i) as u64
        };
        assert(magnitude == -(i as int));
        push_dec_u64(out, magnitude);
        proof {
            assert(out@ =~= old(out)@ + dec_int(i as int));
        }
    }
}

/// The value of a digit string, most significant first; meaningful when
/// every byte is an ASCII digit.
pub open spec fn digits_value(s: Seq<u8>) -> nat
    decreases s.len(),
{
    if s.len() == 0 {
        0
    } else {
        (digits_value(s.take(s.len() - 1)) * 10 + (s[s.len() - 1] - 48)) as nat
    }
}

pub open spec fn all_digits(s: Seq<u8>) -> bool {
    forall|i: int| 0 <= i < s.len() ==> 48 <= #[trigger] s[i] <= 57
}

/// A decimal number as Rust's integer parsers take it: an optional
/// sign, then one or more digits.
pub open spec fn is_signed_decimal(s: Seq<u8>) -> bool {
    if s.len() == 0 {
        false
    } else if s[0] == 43 || s[0] == 45 {
        s.len() > 1 && all_digits(s.skip(1))
    } else {
        all_digits(s)
    }
}

/// The value of a signed decimal string.
pub open spec fn signed_decimal_value(s: Seq<u8>) -> int {
    if s.len() > 0 && s[0] == 45 {
        -(digits_value(s.skip(1)) as int)
    } else if s.len() > 0 && s[0] == 43 {
        digits_value(s.skip(1)) as int
    } else {
        digits_value(s) as int
    }
}

proof fn lemma_digits_value_grows(s: Seq<u8>, t: Seq<u8>)
    requires
        s.len() <= t.len(),
        s == t.take(s.len() as int),
        all_digits(t),
    ensures
        digits_value(s) <= digits_value(t),
    decreases t.len() - s.len(),
{
    if s.len() < t.len() {
        let t1 = t.take(t.len() - 1);
        assert(s =~= t1.take(s.len() as int));
        assert(all_digits(t1));
        lemma_digits_value_grows(s, t1);
        assert(t.take(t.len() - 1) == t1);
        assert(digits_value(t) == (digits_value(t1) * 10 + (t[t.len() - 1] - 48)) as nat);
        assert(t[t.len() - 1] >= 48);
        assert(digits_value(t1) * 10 >= digits_value(t1)) by (nonlinear_arith);
    } else {
        assert(s =~= t);
    }
}

/// Parses the digits of `buf[from..to]` as a number, capped: returns
/// `None` when the digits are worth more than `bound`, and the exact
/// value otherwise. Expects digits only.
fn parse_digits_bounded(buf: &Vec<u8>, from: usize, to: usize, bound: u64) -> (r: Option<u64>)
    requires
        from <= to <= buf@.len(),
        all_digits(buf@.subrange(from as int, to as int)),
        bound < 1844674407370955161,
    ensures
        match r {
            Some(v) => v == digits_value(buf@.subrange(from as int, to as int)) && v <= bound,
            None => digits_value(buf@.subrange(from as int, to as int)) > bound,
        },
{
    let ghost whole = buf@.subrange(from as int, to as int);
    let mut acc: u64 = 0;
    let mut i: usize = from;
    let mut overflowed = false;
    while i < to
        invariant
            from <= i <= to <= buf@.len(),
            all_digits(whole),
            whole == buf@.subrange(from as int, to as int),
            bound < 1844674407370955161,
            !overflowed ==> acc == digits_value(buf@.subrange(from as int, i as int)) && acc
                <= bound,
            overflowed ==> digits_value(buf@.subrange(from as int, i as int)) > bound,
        decreases to - i,
    {
        let ghost prefix = buf@.subrange(from as int, i as int);
        let ghost next = buf@.subrange(from as int, i + 1);
        proof {
            assert(whole[i - from] == buf@[i as int]);
            assert(next[i - from] == buf@[i as int]);
            assert(forall|j: int| 0 <= j < next.len() ==> #[trigger] next[j] == whole[j]);
            assert(all_digits(next));
            assert(next.take(next.len() - 1) =~= prefix);
            assert(digits_value(next) == (digits_value(prefix) * 10 + (buf@[i as int] - 48)) as nat);
        }
        let d: u8 = buf[i];
        if !overflowed {
            // acc <= bound < 2^64 / 10, so acc * 10 + 9 cannot overflow
            let grown: u64 = acc * 10 + (d - 48) as u64;
            if grown > bound {
                overflowed = true;
            } else {
                acc = grown;
            }
        } else {
            proof {
                lemma_digits_value_grows(prefix, next);
            }
        }
        i = i + 1;
    }
    if overflowed {
        None
    } else {
        Some(acc)
    }
}

/// Parses `buf[from..to]` the way `str::parse::<u64>` capped at `bound`
/// would: an optional `+` sign, then digits; `None` on anything else,
/// on an empty field, or on a value above `bound`.
pub fn parse_unsigned_capped(buf: &Vec<u8>, from: usize, to: usize, bound: u64) -> (r: Option<u64>)
    requires
        from <= to <= buf@.len(),
        bound < 1844674407370955161,
    ensures
        ({
            let s = buf@.subrange(from as int, to as int);
            match r {
                Some(v) => is_signed_decimal(s) && s[0] != 45 && v == signed_decimal_value(s) && v
                    <= bound,
                None => !is_signed_decimal(s) || s[0] == 45 || signed_decimal_value(s) > bound,
            }
        }),
{
    let ghost s = buf@.subrange(from as int, to as int);
    if from == to {
        return None;
    }
    let first: u8 = buf[from];
    let digits_from: usize = if first == 43 {
        from + 1
    } else {
        from
    };
    if first == 45 {
        return None;
    }
    if digits_from == to {
        return None;
    }
    let mut i: usize = digits_from;
    while i < to
        invariant
            from < to <= buf@.len(),
            from <= digits_from <= from + 1,
            digits_from < to,
            digits_from <= i <= to,
            first == buf@[from as int],
            first != 45,
            digits_from == from + 1 <==> first == 43,
            s == buf@.subrange(from as int, to as int),
            all_digits(buf@.subrange(digits_from as int, i as int)),
        decreases to - i,
    {
        let d: u8 = buf[i];
        if d < 48 || d > 57 {
            proof {
                let bad = buf@.subrange(digits_from as int, to as int);
                assert(bad[i - digits_from] == buf@[i as int]);
                if first == 43 {
                    assert(s.skip(1) =~= bad);
                } else {
                    assert(s =~= bad);
                }
            }
            return None;
        }
        proof {
            assert(buf@.subrange(digits_from as int, i + 1).drop_last() =~= buf@.subrange(
                digits_from as int,
                i as int,
            ));
            assert(forall|j: int|
                0 <= j < i + 1 - digits_from ==> #[trigger] buf@.subrange(
                    digits_from as int,
                    i + 1,
                )[j] == buf@[digits_from + j]);
        }
        i = i + 1;
    }
    proof {
        let ds = buf@.subrange(digits_from as int, to as int);
        if first == 43 {
            assert(s.skip(1) =~= ds);
        } else {
            assert(s =~= ds);
        }
    }
    parse_digits_bounded(buf, digits_from, to, bound)
}

/// The digits of a number never carry a leading zero (except for zero
/// itself), so the decimal form parses back to the same value.
pub proof fn lemma_dec_digits_value(n: nat)
    ensures
        all_digits(dec_digits(n)),
        digits_value(dec_digits(n)) == n,
        dec_digits(n).len() >= 1,
        dec_digits(n)[0] != 45 && dec_digits(n)[0] != 43,
    decreases n,
{
    if n < 10 {
        let s = dec_digits(n);
        assert(s.len() == 1);
        assert(s.take(0) =~= Seq::<u8>::empty());
        assert(digits_value(Seq::<u8>::empty()) == 0);
        assert(digits_value(s) == (digits_value(s.take(0)) * 10 + (s[0] - 48)) as nat);
    } else {
        lemma_dec_digits_value(n / 10);
        let s = dec_digits(n);
        let p = dec_digits(n / 10);
        assert(s.take(s.len() - 1) =~= p);
        assert(digits_value(s) == digits_value(p) * 10 + (n % 10));
        assert(n == (n / 10) * 10 + n % 10) by (nonlinear_arith);
    }
}

} // verus!
