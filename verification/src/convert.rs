//! Bulk conversions between bit vectors, byte slices and boolean slices.
//!
//! Every byte contributes eight bits, most significant first: bit 0 of the
//! vector is the most significant bit of the first byte.

use vstd::prelude::*;

use crate::BitVec;
use crate::primitive::Bit;
use crate::primitive::Byte;
use crate::primitive::WORD_BITS;
use crate::primitive::WORD_BYTES;
use crate::primitive::Word;
use crate::primitive::byte_bit;
use crate::primitive::lemma_word_bits;
use crate::primitive::word_bit;

use vstd::arithmetic::div_mod::lemma_fundamental_div_mod;

verus! {

/// The bits of a byte sequence, eight per byte, most significant first.
pub open spec fn bits_of_bytes(bs: Seq<Byte>) -> Seq<bool> {
    Seq::new((8 * bs.len()) as nat, |i: int| byte_bit(bs[i / 8], i % 8))
}

/// The bit at `i`, as 0 or 1, with positions outside the sequence reading
/// as 0.
pub open spec fn bit_at(s: Seq<bool>, i: int) -> int {
    if 0 <= i < s.len() && s[i] {
        1int
    } else {
        0int
    }
}

/// The byte packing the eight bits at `base`, most significant first,
/// zero-padded past the end of the sequence.
pub open spec fn byte_of_bits(s: Seq<bool>, base: int) -> Byte {
    (128 * bit_at(s, base) + 64 * bit_at(s, base + 1) + 32 * bit_at(s, base + 2) + 16 * bit_at(
        s,
        base + 3,
    ) + 8 * bit_at(s, base + 4) + 4 * bit_at(s, base + 5) + 2 * bit_at(s, base + 6) + bit_at(
        s,
        base + 7,
    )) as Byte
}

/// Number of bytes needed to hold `n` bits.
pub open spec fn bytes_for(n: int) -> int {
    n / 8 + if n % 8 == 0 {
        0int
    } else {
        1int
    }
}

/// The byte sequence packing a bit sequence, eight bits per byte, the last
/// byte zero-padded.
pub open spec fn bytes_of_bits(s: Seq<bool>) -> Seq<Byte> {
    Seq::new(bytes_for(s.len() as int) as nat, |k: int| byte_of_bits(s, 8 * k))
}

/// A packed byte reads back bit for bit.
pub proof fn lemma_byte_of_bits_bit(s: Seq<bool>, base: int, j: int)
    requires
        0 <= j < 8,
    ensures
        byte_bit(byte_of_bits(s, base), j) == (bit_at(s, base + j) == 1),
{
    let c0 = bit_at(s, base);
    let c1 = bit_at(s, base + 1);
    let c2 = bit_at(s, base + 2);
    let c3 = bit_at(s, base + 3);
    let c4 = bit_at(s, base + 4);
    let c5 = bit_at(s, base + 5);
    let c6 = bit_at(s, base + 6);
    let c7 = bit_at(s, base + 7);
    let d0: u8 = c0 as u8;
    let d1: u8 = c1 as u8;
    let d2: u8 = c2 as u8;
    let d3: u8 = c3 as u8;
    let d4: u8 = c4 as u8;
    let d5: u8 = c5 as u8;
    let d6: u8 = c6 as u8;
    let d7: u8 = c7 as u8;
    let b = byte_of_bits(s, base);
    let t = (7 - j) as u8;
    assert(b == (128 * c0 + 64 * c1 + 32 * c2 + 16 * c3 + 8 * c4 + 4 * c5 + 2 * c6 + c7) as u8);
    assert(((b >> t) & 1u8 == 1u8) == (if t == 7 {
        d0 == 1
    } else if t == 6 {
        d1 == 1
    } else if t == 5 {
        d2 == 1
    } else if t == 4 {
        d3 == 1
    } else if t == 3 {
        d4 == 1
    } else if t == 2 {
        d5 == 1
    } else if t == 1 {
        d6 == 1
    } else {
        d7 == 1
    })) by (bit_vector)
        requires
            t < 8u8 && b == 128 * d0 + 64 * d1 + 32 * d2 + 16 * d3 + 8 * d4 + 4 * d5 + 2 * d6 + d7
                && d0 <= 1 && d1 <= 1 && d2 <= 1 && d3 <= 1 && d4 <= 1 && d5 <= 1 && d6 <= 1 && d7
                <= 1,
    ;
}

/// A bit index below `8 * n` lands in byte `i / 8` at offset `i % 8`.
pub(crate) proof fn lemma_byte_index(i: int, n: int)
    requires
        0 <= i < 8 * n,
    ensures
        0 <= i / 8 < n,
        0 <= i % 8 < 8,
{
    lemma_fundamental_div_mod(i, 8);
    assert(i / 8 < n) by (nonlinear_arith)
        requires
            i < 8 * n && i == 8 * (i / 8) + i % 8 && 0 <= i % 8 < 8,
    ;
    assert(i / 8 >= 0) by (nonlinear_arith)
        requires
            i >= 0,
    ;
}

/// Bytes that agree on every bit are the same byte.
pub(crate) proof fn lemma_byte_ext(a: Byte, b: Byte)
    requires
        forall|j: int| 0 <= j < 8 ==> byte_bit(a, j) == byte_bit(b, j),
    ensures
        a == b,
{
    assert(byte_bit(a, 0) == byte_bit(b, 0) && byte_bit(a, 1) == byte_bit(b, 1) && byte_bit(a, 2)
        == byte_bit(b, 2) && byte_bit(a, 3) == byte_bit(b, 3) && byte_bit(a, 4) == byte_bit(b, 4)
        && byte_bit(a, 5) == byte_bit(b, 5) && byte_bit(a, 6) == byte_bit(b, 6) && byte_bit(a, 7)
        == byte_bit(b, 7));
    assert(a == b) by (bit_vector)
        requires
            (((a >> 7u8) & 1u8 == 1u8) == ((b >> 7u8) & 1u8 == 1u8)) && (((a >> 6u8) & 1u8 == 1u8)
                == ((b >> 6u8) & 1u8 == 1u8)) && (((a >> 5u8) & 1u8 == 1u8) == ((b >> 5u8) & 1u8
                == 1u8)) && (((a >> 4u8) & 1u8 == 1u8) == ((b >> 4u8) & 1u8 == 1u8)) && (((a >> 3u8)
                & 1u8 == 1u8) == ((b >> 3u8) & 1u8 == 1u8)) && (((a >> 2u8) & 1u8 == 1u8) == ((b
                >> 2u8) & 1u8 == 1u8)) && (((a >> 1u8) & 1u8 == 1u8) == ((b >> 1u8) & 1u8 == 1u8))
                && (((a >> 0u8) & 1u8 == 1u8) == ((b >> 0u8) & 1u8 == 1u8)),
    ;
}

/// Packs eight bits into one byte, most significant first.
fn pack_byte(bits: [Bit; 8]) -> (r: Byte)
    ensures
        forall|j: int| 0 <= j < 8 ==> byte_bit(r, j) == bits@[j],
{
    let r = (if bits[0] {
        128u8
    } else {
        0u8
    }) + (if bits[1] {
        64u8
    } else {
        0u8
    }) + (if bits[2] {
        32u8
    } else {
        0u8
    }) + (if bits[3] {
        16u8
    } else {
        0u8
    }) + (if bits[4] {
        8u8
    } else {
        0u8
    }) + (if bits[5] {
        4u8
    } else {
        0u8
    }) + (if bits[6] {
        2u8
    } else {
        0u8
    }) + (if bits[7] {
        1u8
    } else {
        0u8
    });
    proof {
        let s = bits@;
        assert forall|j: int| 0 <= j < 8 implies byte_bit(r, j) == s[j] by {
            lemma_byte_of_bits_bit(s, 0, j);
            assert(byte_of_bits(s, 0) == r);
        }
    }
    r
}

/// Reads one bit of a byte, most significant first.
#[inline]
fn byte_get(b: Byte, offset: usize) -> (r: Bit)
    requires
        offset < 8,
    ensures
        r == byte_bit(b, offset as int),
{
    (b >> ((7 - offset) as u8)) & 1u8 == 1u8
}

impl BitVec {
    /// Builds a vector from a byte slice: every byte contributes eight
    /// bits, most significant first.
    pub fn from_bytes(bytes: &[Byte]) -> (r: Self)
        requires
            8 * bytes@.len() <= usize::MAX,
        ensures
            r@ == bits_of_bytes(bytes@),
    {
        let n = bytes.len();
        let total = 8 * n;
        let mut r = Self::with_capacity(total);
        for i in 0..total
            invariant
                n == bytes@.len(),
                total == 8 * bytes@.len(),
                r@ == bits_of_bytes(bytes@).take(i as int),
        {
            proof {
                lemma_byte_index(i as int, n as int);
            }
            let byte = bytes[i / 8];
            let bit = byte_get(byte, i % 8);
            r.push(bit);
            proof {
                assert(bits_of_bytes(bytes@).take(i as int + 1) =~= bits_of_bytes(
                    bytes@,
                ).take(i as int).push(bit));
            }
        }
        proof {
            assert(bits_of_bytes(bytes@).take(total as int) =~= bits_of_bytes(bytes@));
        }
        r
    }

    /// Builds a vector from a boolean slice, one bit per element.
    pub fn from_bools(values: &[Bit]) -> (r: Self)
        ensures
            r@ == values@,
    {
        let n = values.len();
        let mut r = Self::with_capacity(n);
        for i in 0..n
            invariant
                n == values@.len(),
                r@ == values@.take(i as int),
        {
            r.push(values[i]);
            proof {
                assert(values@.take(i as int + 1) =~= values@.take(i as int).push(
                    values@[i as int],
                ));
            }
        }
        proof {
            assert(values@.take(n as int) =~= values@);
        }
        r
    }

    /// The bits as a boolean vector, borrowed form.
    pub fn to_bools(&self) -> (r: Vec<Bit>)
        ensures
            r@ == self@,
    {
        let n = self.len();
        let mut r: Vec<Bit> = Vec::new();
        for i in 0..n
            invariant
                n == self@.len(),
                r@ == self@.take(i as int),
        {
            r.push(self.get_unchecked(i));
            proof {
                assert(self@.take(i as int + 1) =~= self@.take(i as int).push(self@[i as int]));
            }
        }
        proof {
            assert(self@.take(n as int) =~= self@);
        }
        r
    }

    /// The bits as a boolean vector, consuming form.
    pub fn into_bools(self) -> (r: Vec<Bit>)
        ensures
            r@ == self@,
    {
        self.to_bools()
    }

    /// The word whose bits are the given bytes, most significant byte
    /// first; a short slice leaves the trailing bits clear.
    pub fn word_from_byte_slice(bytes: &[Byte]) -> (r: Word)
        requires
            bytes@.len() <= WORD_BYTES,
        ensures
            forall|j: int|
                0 <= j < WORD_BITS ==> word_bit(r.0, j) == (j < 8 * bytes@.len() && byte_bit(
                    bytes@[j / 8],
                    j % 8,
                )),
    {
        proof {
            lemma_word_bits();
        }
        let n = bytes.len();
        let total = 8 * n;
        let mut r = Word::clear();
        for i in 0..total
            invariant
                n == bytes@.len(),
                total == 8 * bytes@.len(),
                total <= WORD_BITS,
                forall|j: int|
                    0 <= j < i ==> word_bit(r.0, j) == byte_bit(bytes@[j / 8], j % 8),
                forall|j: int| i <= j < WORD_BITS ==> !word_bit(r.0, j),
        {
            proof {
                lemma_byte_index(i as int, n as int);
            }
            let bit = byte_get(bytes[i / 8], i % 8);
            if bit {
                r.set(i, true);
            }
        }
        r
    }

    /// The word whose bits are exactly the given bytes, most significant
    /// byte first; the slice must fill the word.
    pub fn word_from_byte_array(bytes: &[Byte]) -> (r: Word)
        requires
            bytes@.len() == WORD_BYTES,
        ensures
            forall|j: int|
                0 <= j < WORD_BITS ==> word_bit(r.0, j) == byte_bit(bytes@[j / 8], j % 8),
    {
        proof {
            lemma_word_bits();
        }
        Self::word_from_byte_slice(bytes)
    }

    /// The bytes of a word, most significant first.
    pub fn word_to_byte_array(word: Word) -> (r: Vec<Byte>)
        ensures
            r@.len() == WORD_BYTES,
            forall|k: int, j: int|
                0 <= k < WORD_BYTES && 0 <= j < 8 ==> #[trigger] byte_bit(r@[k], j) == word_bit(
                    word.0,
                    8 * k + j,
                ),
    {
        proof {
            lemma_word_bits();
        }
        let mut r: Vec<Byte> = Vec::new();
        for k in 0..WORD_BYTES
            invariant
                r@.len() == k,
                forall|q: int, j: int|
                    0 <= q < k && 0 <= j < 8 ==> #[trigger] byte_bit(r@[q], j) == word_bit(
                        word.0,
                        8 * q + j,
                    ),
        {
            proof {
                lemma_word_bits();
            }
            let base = 8 * k;
            let mut bits: [Bit; 8] = [false;8];
            let mut j: usize = 0;
            while j < 8
                invariant
                    0 <= j <= 8,
                    base == 8 * k as int,
                    base + 8 <= WORD_BITS,
                    forall|t: int| 0 <= t < j ==> bits@[t] == word_bit(word.0, base as int + t),
                decreases 8 - j,
            {
                bits[j] = word.get(base + j);
                j = j + 1;
            }
            let byte = pack_byte(bits);
            r.push(byte);
        }
        r
    }

    /// The bits packed into bytes, eight per byte most significant first,
    /// the last byte zero-padded: the inverse of `from_bytes` up to that
    /// padding.
    pub fn to_bytes(&self) -> (r: Vec<Byte>)
        ensures
            r@ == bytes_of_bits(self@),
    {
        let n = self.len();
        let count = n / 8 + if n % 8 != 0 {
            1
        } else {
            0
        };
        proof {
            if n > 0 {
                lemma_fundamental_div_mod(n as int, 8);
                assert(8 * (n as int / 8) <= n as int) by (nonlinear_arith)
                    requires
                        n as int == 8 * (n as int / 8) + n as int % 8 && n as int % 8 >= 0,
                ;
            }
        }
        let mut r: Vec<Byte> = Vec::new();
        for k in 0..count
            invariant
                n == self@.len(),
                count == bytes_for(n as int),
                8 * (count as int - 1) <= n as int,
                r@ == bytes_of_bits(self@).take(k as int),
        {
            let base = 8 * k;
            let mut bits: [Bit; 8] = [false;8];
            let mut j: usize = 0;
            while j < 8
                invariant
                    0 <= j <= 8,
                    n == self@.len(),
                    base == 8 * k as int,
                    base <= n as int,
                    forall|t: int| 0 <= t < j ==> bits@[t] == (bit_at(self@, base as int + t) == 1),
                decreases 8 - j,
            {
                let bit = if n - base > j {
                    self.get_unchecked(base + j)
                } else {
                    false
                };
                bits[j] = bit;
                j = j + 1;
            }
            let byte = pack_byte(bits);
            proof {
                assert forall|t: int| 0 <= t < 8 implies byte_bit(byte, t) == byte_bit(
                    byte_of_bits(self@, base as int),
                    t,
                ) by {
                    lemma_byte_of_bits_bit(self@, base as int, t);
                }
                lemma_byte_ext(byte, byte_of_bits(self@, base as int));
                assert(bytes_of_bits(self@).take(k as int + 1) =~= bytes_of_bits(self@).take(
                    k as int,
                ).push(byte));
            }
            r.push(byte);
        }
        proof {
            assert(bytes_of_bits(self@).take(count as int) =~= bytes_of_bits(self@));
        }
        r
    }
}

} // verus!
