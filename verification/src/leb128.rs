//! Unsigned LEB128, the variable-length integer encoding used for length prefixes.
//!
//! A value is cut into groups of seven bits, least significant group first. Each group is one
//! byte; every byte but the last has its top bit set.

use crate::error::{agrees, FrameError, ReadError};
use vstd::prelude::*;

verus! {

/// The bit that marks a byte as followed by another one.
pub const CONTINUATION_BIT: u8 = 0x80;

/// `128` to the power `i`: the weight of the group with index `i`.
pub open spec fn pow128(i: nat) -> nat
    decreases i,
{
    if i == 0 {
        1
    } else {
        128 * pow128((i - 1) as nat)
    }
}

/// The encoding of `v`: the shortest one, which is the one `write` produces.
pub open spec fn encoding(v: nat) -> Seq<u8>
    decreases v,
{
    if v < 128 {
        seq![v as u8]
    } else {
        seq![(v % 128 + 128) as u8] + encoding(v / 128)
    }
}

/// What a reader finds at `pos` after `i` groups that added up to `acc`.
///
/// The tenth byte may only hold the one bit that is left of 64; a larger one is an overflow.
/// Encodings longer than necessary are read like any other.
pub open spec fn decoding_from(s: Seq<u8>, pos: int, i: nat, acc: nat) -> Result<
    (u64, int),
    ReadError,
>
    decreases s.len() - pos,
{
    if pos < 0 || pos >= s.len() {
        Err(ReadError::NeedMoreData)
    } else {
        let byte = s[pos];
        if i >= 9 && byte > 1 {
            Err(ReadError::MalformedFrame(FrameError::LengthOverflow))
        } else {
            let next = (acc + (byte % 128) * pow128(i)) as nat;
            if byte < 128 {
                Ok((next as u64, pos + 1))
            } else {
                decoding_from(s, pos + 1, (i + 1) as nat, next)
            }
        }
    }
}

/// What a reader finds at `pos`: the value and the position behind it, or why there is none.
pub open spec fn decoding(s: Seq<u8>, pos: int) -> Result<(u64, int), ReadError> {
    decoding_from(s, pos, 0, 0)
}

pub proof fn lemma_pow128_values()
    ensures
        pow128(0) == 1,
        pow128(1) == 0x80,
        pow128(2) == 0x4000,
        pow128(3) == 0x20_0000,
        pow128(4) == 0x1000_0000,
        pow128(5) == 0x8_0000_0000,
        pow128(6) == 0x400_0000_0000,
        pow128(7) == 0x2_0000_0000_0000,
        pow128(8) == 0x100_0000_0000_0000,
        pow128(9) == 0x8000_0000_0000_0000,
        pow128(10) == 0x40_0000_0000_0000_0000,
{
    reveal_with_fuel(pow128, 11);
}

/// An encoding has between one and ten bytes.
pub proof fn lemma_encoding_len(v: nat)
    requires
        v <= u64::MAX,
    ensures
        1 <= encoding(v).len() <= 10,
{
    lemma_pow128_values();
    lemma_encoding_len_below(v, 10);
}

proof fn lemma_encoding_len_below(v: nat, k: nat)
    requires
        1 <= k,
        v < pow128(k),
    ensures
        1 <= encoding(v).len() <= k,
    decreases v,
{
    if v >= 128 {
        assert(k >= 2) by {
            reveal_with_fuel(pow128, 2);
        }
        assert(pow128(k) == 128 * pow128((k - 1) as nat));
        lemma_encoding_len_below(v / 128, (k - 1) as nat);
    }
}

/// A successful read ends behind its start and inside the buffer.
pub proof fn lemma_decoding_bounds(s: Seq<u8>, pos: int)
    ensures
        decoding(s, pos) matches Ok((v, p)) ==> 0 <= pos < p <= s.len(),
{
    lemma_decoding_from_bounds(s, pos, 0, 0);
}

proof fn lemma_decoding_from_bounds(s: Seq<u8>, pos: int, i: nat, acc: nat)
    ensures
        decoding_from(s, pos, i, acc) matches Ok((v, p)) ==> 0 <= pos < p <= s.len(),
    decreases s.len() - pos,
{
    if 0 <= pos < s.len() {
        let byte = s[pos];
        if !(i >= 9 && byte > 1) && byte >= 128 {
            lemma_decoding_from_bounds(
                s,
                pos + 1,
                (i + 1) as nat,
                (acc + (byte % 128) * pow128(i)) as nat,
            );
        }
    }
}

/// The seven payload bits of a byte.
pub fn low_bits_of_byte(val: u8) -> (r: u8)
    ensures
        r == val % 128,
{
    assert(val & !0x80u8 == val % 128) by (bit_vector);
    val & !CONTINUATION_BIT
}

/// The seven lowest bits of a number.
pub fn low_bits_of_u64(val: u64) -> (r: u8)
    ensures
        r == val % 128,
{
    let byte: u64 = val & 0xff;
    assert(val & 0xff == val % 256) by (bit_vector);
    assert((val % 256) % 128 == val % 128);
    low_bits_of_byte(byte as u8)
}

/// Appends the encoding of `val` to `buf` and returns how many bytes that took.
pub fn write(buf: &mut Vec<u8>, val: u64) -> (n: usize)
    ensures
        final(buf)@ == old(buf)@ + encoding(val as nat),
        n == encoding(val as nat).len(),
{
    let mut left: u64 = val;
    let mut n: usize = 0;
    proof {
        lemma_encoding_len(val as nat);
    }
    loop
        invariant
            old(buf)@ + encoding(val as nat) == buf@ + encoding(left as nat),
            n + encoding(left as nat).len() == encoding(val as nat).len(),
            encoding(val as nat).len() <= 10,
        decreases left,
    {
        let mut byte: u8 = low_bits_of_u64(left);
        let rest: u64 = left >> 7;
        assert(left >> 7 == left / 128) by (bit_vector);
        if rest != 0 {
            assert(byte < 128 ==> byte | 0x80u8 == byte + 128) by (bit_vector);
            byte |= CONTINUATION_BIT;
        }
        let ghost before = buf@;
        buf.push(byte);
        n += 1;
        if rest == 0 {
            assert(encoding(left as nat) == seq![byte]);
            assert(before + seq![byte] == buf@);
            return n;
        }
        assert(encoding(left as nat) == seq![byte] + encoding(rest as nat));
        assert(before + (seq![byte] + encoding(rest as nat)) == buf@ + encoding(rest as nat));
        left = rest;
    }
}

/// Reads one number at `pos` and returns it with the position behind it.
pub fn read(buf: &[u8], pos: usize) -> (res: Result<(u64, usize), ReadError>)
    ensures
        agrees(res, decoding(buf@, pos as int)),
{
    let mut result: u64 = 0;
    let mut mult: u64 = 1;
    let mut i: usize = 0;
    let mut cur: usize = pos;
    proof {
        lemma_pow128_values();
    }
    loop
        invariant
            i <= 9,
            mult == pow128(i as nat),
            result < pow128(i as nat) || i == 0,
            result == 0 || i > 0,
            decoding(buf@, pos as int) == decoding_from(buf@, cur as int, i as nat, result as nat),
        decreases 10 - i,
    {
        if cur >= buf.len() {
            return Err(ReadError::NeedMoreData);
        }
        let byte: u8 = buf[cur];
        if i == 9 && byte > 1 {
            return Err(ReadError::MalformedFrame(FrameError::LengthOverflow));
        }
        let low: u8 = low_bits_of_byte(byte);
        proof {
            lemma_pow128_values();
            assert(pow128((i + 1) as nat) == 128 * pow128(i as nat)) by {
                reveal_with_fuel(pow128, 2);
            }
            assert(low * mult <= 127 * mult) by (nonlinear_arith)
                requires
                    low <= 127,
                    mult >= 0,
            ;
            if i == 9 {
                assert(low * mult <= 1 * mult) by (nonlinear_arith)
                    requires
                        low <= 1,
                        mult >= 0,
                ;
            }
        }
        result = result + (low as u64) * mult;
        assert(byte & 0x80u8 == 0 <==> byte < 128) by (bit_vector);
        if byte & CONTINUATION_BIT == 0 {
            return Ok((result, cur + 1));
        }
        mult = mult * 128;
        i += 1;
        cur += 1;
    }
}

/// Reading an encoding gives the number back, wherever the encoding stands in the buffer.
pub proof fn lemma_decoding_of_encoding(s: Seq<u8>, pos: int, v: u64)
    requires
        0 <= pos,
        pos + encoding(v as nat).len() <= s.len(),
        s.subrange(pos, pos + encoding(v as nat).len()) == encoding(v as nat),
    ensures
        decoding(s, pos) == Ok::<(u64, int), ReadError>((v, pos + encoding(v as nat).len())),
{
    lemma_pow128_values();
    lemma_decoding_from(s, pos, v as nat, 0, 0);
}

proof fn lemma_decoding_from(s: Seq<u8>, pos: int, v: nat, i: nat, acc: nat)
    requires
        0 <= pos,
        i <= 9,
        acc + v * pow128(i) <= u64::MAX,
        pos + encoding(v).len() <= s.len(),
        s.subrange(pos, pos + encoding(v).len()) == encoding(v),
    ensures
        decoding_from(s, pos, i, acc) == Ok::<(u64, int), ReadError>(
            ((acc + v * pow128(i)) as u64, pos + encoding(v).len()),
        ),
    decreases v,
{
    lemma_pow128_values();
    let enc = encoding(v);
    let p = pow128(i);
    assert(s[pos] == s.subrange(pos, pos + enc.len())[0]);
    if v < 128 {
        assert(s[pos] == v as u8);
        if i == 9 {
            assert(v <= 1) by (nonlinear_arith)
                requires
                    v * p <= u64::MAX,
                    p == 0x8000_0000_0000_0000,
            ;
        }
    } else {
        let rest = v / 128;
        let low = v % 128;
        assert(s[pos] == (low + 128) as u8);
        assert(v * p >= 128 * p) by (nonlinear_arith)
            requires
                v >= 128,
                p >= 0,
        ;
        assert(i < 9);
        assert(pow128((i + 1) as nat) == 128 * p) by {
            reveal_with_fuel(pow128, 2);
        }
        assert(low * p + rest * (128 * p) == v * p) by (nonlinear_arith)
            requires
                v == 128 * rest + low,
        ;
        assert(enc.subrange(1, enc.len() as int) == encoding(rest));
        assert(s.subrange(pos + 1, pos + 1 + encoding(rest).len()) == encoding(rest)) by {
            assert(s.subrange(pos + 1, pos + 1 + encoding(rest).len()) =~= s.subrange(
                pos,
                pos + enc.len(),
            ).subrange(1, enc.len() as int));
        }
        lemma_decoding_from(s, pos + 1, rest, (i + 1) as nat, (acc + low * p) as nat);
    }
}

} // verus!
