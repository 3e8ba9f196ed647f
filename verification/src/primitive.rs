//! The storage word: a fixed-width unsigned integer holding `WORD_BITS` bits,
//! with bit offset 0 at the most significant bit.

use vstd::prelude::*;

verus! {

/// A single bit of the vector.
pub type Bit = bool;

/// A byte, as used by the byte conversions.
pub type Byte = u8;

/// Number of bits in one storage word (the platform pointer width).
pub const WORD_BITS: usize = usize::BITS as usize;

/// Number of bytes in one storage word.
pub const WORD_BYTES: usize = (usize::BITS as usize) / 8;

/// The bit of `w` at `offset`, where offset 0 is the most significant bit.
pub open spec fn word_bit(w: usize, offset: int) -> bool {
    (w >> ((WORD_BITS - 1 - offset) as usize)) & 1usize == 1usize
}

/// The bit of byte `b` at `offset`, where offset 0 is the most significant
/// bit.
pub open spec fn byte_bit(b: u8, offset: int) -> bool {
    (b >> ((7 - offset) as u8)) & 1u8 == 1u8
}

/// A word whose only set bit is at `offset` (most-significant-first).
pub open spec fn spec_mask(offset: int) -> usize {
    1usize << ((WORD_BITS - 1 - offset) as usize)
}

/// One fixed-width storage word of the bit vector.
#[derive(Clone, Copy, Debug, Hash, PartialEq, Eq, Structural)]
pub struct Word(pub usize);

impl Word {
    /// The all-zero word.
    #[inline]
    pub fn clear() -> (r: Self)
        ensures
            r.0 == 0usize,
            forall|j: int| 0 <= j < WORD_BITS ==> !word_bit(r.0, j),
    {
        proof {
            assert forall|j: int| 0 <= j < WORD_BITS implies !word_bit(0usize, j) by {
                let s = (WORD_BITS - 1 - j) as usize;
                assert((0usize >> s) & 1usize != 1usize) by (bit_vector);
            }
        }
        Word(0)
    }

    /// A word with the bit at `index` set and every other bit clear.
    #[inline]
    fn mask(index: usize) -> (r: Self)
        requires
            index < WORD_BITS,
        ensures
            r.0 == spec_mask(index as int),
    {
        Word(1usize << (WORD_BITS - 1 - index))
    }

    /// The bit at `index`, counting the most significant bit as index 0.
    #[inline]
    pub fn get(&self, index: usize) -> (r: Bit)
        requires
            index < WORD_BITS,
        ensures
            r == word_bit(self.0, index as int),
    {
        let m = Self::mask(index);
        proof {
            let w = self.0;
            let s = (WORD_BITS - 1 - index) as usize;
            assert((w & (1usize << s) != 0usize) == ((w >> s) & 1usize == 1usize)) by (bit_vector)
                requires
                    s < WORD_BITS as usize,
            ;
        }
        (self.0 & m.0) != 0
    }

    /// Sets or clears the bit at `index` in place, leaving every other bit
    /// unchanged.
    #[inline]
    pub fn set(&mut self, index: usize, value: Bit)
        requires
            index < WORD_BITS,
        ensures
            word_bit(final(self).0, index as int) == value,
            forall|j: int|
                0 <= j < WORD_BITS && j != index ==> word_bit(final(self).0, j) == word_bit(
                    old(self).0,
                    j,
                ),
    {
        let ghost w = self.0;
        let ghost s = (WORD_BITS - 1 - index) as usize;
        let m = Self::mask(index);
        if value {
            self.0 = self.0 | m.0;
            proof {
                let r = self.0;
                assert forall|j: int| 0 <= j < WORD_BITS implies word_bit(r, j) == (if j
                    == index as int {
                    true
                } else {
                    word_bit(w, j)
                }) by {
                    let t = (WORD_BITS - 1 - j) as usize;
                    assert((t == s ==> ((w | (1usize << s)) >> t) & 1usize == 1usize) && (t != s
                        ==> ((w | (1usize << s)) >> t) & 1usize == (w >> t) & 1usize))
                        by (bit_vector)
                        requires
                            s < WORD_BITS as usize && t < WORD_BITS as usize,
                    ;
                }
            }
        } else {
            self.0 = self.0 & !m.0;
            proof {
                let r = self.0;
                assert forall|j: int| 0 <= j < WORD_BITS implies word_bit(r, j) == (if j
                    == index as int {
                    false
                } else {
                    word_bit(w, j)
                }) by {
                    let t = (WORD_BITS - 1 - j) as usize;
                    assert((t == s ==> ((w & !(1usize << s)) >> t) & 1usize == 0usize) && (t != s
                        ==> ((w & !(1usize << s)) >> t) & 1usize == (w >> t) & 1usize))
                        by (bit_vector)
                        requires
                            s < WORD_BITS as usize && t < WORD_BITS as usize,
                    ;
                }
            }
        }
    }

    /// A word whose most significant bit is set and all others clear.
    #[inline]
    pub fn msb_set() -> (r: Self)
        ensures
            word_bit(r.0, 0),
            forall|j: int| 0 < j < WORD_BITS ==> !word_bit(r.0, j),
    {
        let m = Self::mask(0);
        proof {
            let s = (WORD_BITS - 1) as usize;
            assert forall|j: int| 0 <= j < WORD_BITS implies word_bit(m.0, j) == (j == 0) by {
                let t = (WORD_BITS - 1 - j) as usize;
                assert((((1usize << s) >> t) & 1usize == 1usize) == (t == s)) by (bit_vector)
                    requires
                        s < WORD_BITS as usize && t < WORD_BITS as usize,
                ;
            }
        }
        m
    }

    /// A word with every bit clear; what `push(false)` appends.
    #[inline]
    pub fn msb_clear() -> (r: Self)
        ensures
            r.0 == 0usize,
            forall|j: int| 0 <= j < WORD_BITS ==> !word_bit(r.0, j),
    {
        Self::clear()
    }

    /// Bitwise AND of two whole words.
    #[inline]
    pub fn and(self, rhs: Self) -> (r: Self)
        ensures
            r.0 == self.0 & rhs.0,
            forall|j: int|
                0 <= j < WORD_BITS ==> word_bit(r.0, j) == (word_bit(self.0, j) && word_bit(
                    rhs.0,
                    j,
                )),
    {
        proof {
            lemma_word_bitwise(self.0, rhs.0);
        }
        Word(self.0 & rhs.0)
    }

    /// Bitwise OR of two whole words.
    #[inline]
    pub fn or(self, rhs: Self) -> (r: Self)
        ensures
            r.0 == self.0 | rhs.0,
            forall|j: int|
                0 <= j < WORD_BITS ==> word_bit(r.0, j) == (word_bit(self.0, j) || word_bit(
                    rhs.0,
                    j,
                )),
    {
        proof {
            lemma_word_bitwise(self.0, rhs.0);
        }
        Word(self.0 | rhs.0)
    }

    /// Bitwise XOR of two whole words.
    #[inline]
    pub fn xor(self, rhs: Self) -> (r: Self)
        ensures
            r.0 == self.0 ^ rhs.0,
            forall|j: int|
                0 <= j < WORD_BITS ==> word_bit(r.0, j) == (word_bit(self.0, j) != word_bit(
                    rhs.0,
                    j,
                )),
    {
        proof {
            lemma_word_bitwise(self.0, rhs.0);
        }
        Word(self.0 ^ rhs.0)
    }

    /// Bitwise complement of the whole word.
    #[inline]
    pub fn not(self) -> (r: Self)
        ensures
            r.0 == !self.0,
            forall|j: int| 0 <= j < WORD_BITS ==> word_bit(r.0, j) == !word_bit(self.0, j),
    {
        proof {
            lemma_word_bitwise(self.0, 0usize);
        }
        Word(!self.0)
    }

    /// The word shifted left by `rhs` bits, zeros entering at the bottom.
    #[inline]
    pub fn shl(self, rhs: usize) -> (r: Self)
        requires
            rhs < WORD_BITS,
        ensures
            r.0 == self.0 << rhs,
    {
        Word(self.0 << rhs)
    }

    /// The word shifted right by `rhs` bits, zeros entering at the top.
    #[inline]
    pub fn shr(self, rhs: usize) -> (r: Self)
        requires
            rhs < WORD_BITS,
        ensures
            r.0 == self.0 >> rhs,
    {
        Word(self.0 >> rhs)
    }

    /// Right-shifts the word so that the bit at `last` becomes the least
    /// significant bit, discarding everything below it.
    ///
    /// Used to normalize a partially used final word before comparing or
    /// hashing only its logically significant prefix.
    #[inline]
    pub fn align_last_to_lsb(self, last: usize) -> (r: Self)
        requires
            last < WORD_BITS,
        ensures
            r.0 == self.0 >> ((WORD_BITS - 1 - last) as usize),
    {
        Word(self.0 >> (WORD_BITS - 1 - last))
    }
}

/// The word width is one of the two platform pointer widths.
pub(crate) proof fn lemma_word_bits()
    ensures
        WORD_BITS == 32 || WORD_BITS == 64,
{
}

/// The first `n` bits of `w`, most significant first.
pub open spec fn word_prefix(w: usize, n: int) -> Seq<bool> {
    Seq::new(n as nat, |j: int| word_bit(w, j))
}

/// The value of a bit string read as a binary number, first bit most
/// significant.
pub open spec fn word_of_bits(s: Seq<bool>) -> int
    decreases s.len(),
{
    if s.len() == 0 {
        0int
    } else {
        2 * word_of_bits(s.drop_last()) + if s.last() {
            1int
        } else {
            0int
        }
    }
}

/// Words that agree when shifted so that bit `k` is least significant agree
/// on every bit up to `k`.
pub(crate) proof fn lemma_shift_bits_eq(a: usize, b: usize, k: int, j: int)
    requires
        0 <= j <= k < WORD_BITS,
        a >> ((WORD_BITS - 1 - k) as usize) == b >> ((WORD_BITS - 1 - k) as usize),
    ensures
        word_bit(a, j) == word_bit(b, j),
{
    lemma_word_bits();
    let s = (WORD_BITS - 1 - k) as usize;
    let t = (WORD_BITS - 1 - j) as usize;
    assert(((a >> t) & 1usize == 1usize) == ((b >> t) & 1usize == 1usize)) by (bit_vector)
        requires
            a >> s == b >> s && s <= t < WORD_BITS as usize,
    ;
}

/// Words that differ after a right shift differ at some bit the shift kept.
pub(crate) proof fn lemma_shift_neq_witness(a: usize, b: usize, s: usize)
    requires
        s < WORD_BITS,
        a >> s != b >> s,
    ensures
        exists|j: int| 0 <= j <= WORD_BITS - 1 - s && word_bit(a, j) != word_bit(b, j),
    decreases WORD_BITS - s,
{
    lemma_word_bits();
    if s == WORD_BITS - 1 {
        assert(((a >> s) & 1usize == 1usize) != ((b >> s) & 1usize == 1usize)) by (bit_vector)
            requires
                a >> s != b >> s && s == (WORD_BITS - 1) as usize,
        ;
        assert(0 <= 0 <= WORD_BITS - 1 - s && word_bit(a, 0) != word_bit(b, 0));
    } else {
        let s1 = (s + 1) as usize;
        if a >> s1 != b >> s1 {
            lemma_shift_neq_witness(a, b, s1);
            let j = choose|j: int|
                0 <= j <= WORD_BITS - 1 - s1 && word_bit(a, j) != word_bit(b, j);
            assert(0 <= j <= WORD_BITS - 1 - s && word_bit(a, j) != word_bit(b, j));
        } else {
            assert(((a >> s) & 1usize == 1usize) != ((b >> s) & 1usize == 1usize))
                by (bit_vector)
                requires
                    a >> s != b >> s && a >> s1 == b >> s1 && s1 == s + 1 && s < (WORD_BITS
                        - 1) as usize,
            ;
            let j = WORD_BITS - 1 - s;
            assert(0 <= j <= WORD_BITS - 1 - s && word_bit(a, j) != word_bit(b, j));
        }
    }
}

/// Words that agree on every bit up to `k` agree when shifted so that bit
/// `k` is least significant.
pub(crate) proof fn lemma_bits_eq_shift_eq(a: usize, b: usize, k: int)
    requires
        0 <= k < WORD_BITS,
        forall|j: int| 0 <= j <= k ==> word_bit(a, j) == word_bit(b, j),
    ensures
        a >> ((WORD_BITS - 1 - k) as usize) == b >> ((WORD_BITS - 1 - k) as usize),
    decreases k,
{
    lemma_word_bits();
    let s = (WORD_BITS - 1 - k) as usize;
    if k == 0 {
        assert(word_bit(a, 0) == word_bit(b, 0));
        assert(a >> s == b >> s) by (bit_vector)
            requires
                ((a >> s) & 1usize == 1usize) == ((b >> s) & 1usize == 1usize) && s == (WORD_BITS
                    - 1) as usize,
        ;
    } else {
        lemma_bits_eq_shift_eq(a, b, k - 1);
        let s1 = (s + 1) as usize;
        assert(word_bit(a, k) == word_bit(b, k));
        assert(a >> s == b >> s) by (bit_vector)
            requires
                a >> s1 == b >> s1 && s1 == s + 1 && ((a >> s) & 1usize == 1usize) == ((b >> s)
                    & 1usize == 1usize) && s < (WORD_BITS - 1) as usize,
        ;
    }
}

/// Two words agree after a right shift exactly when their XOR shifts to
/// zero.
pub(crate) proof fn lemma_xor_shift_zero(a: usize, b: usize, s: usize)
    requires
        s < WORD_BITS,
    ensures
        ((a ^ b) >> s == 0usize) == (a >> s == b >> s),
{
    lemma_word_bits();
    assert((((a ^ b) >> s) == 0usize) == (a >> s == b >> s)) by (bit_vector)
        requires
            s < WORD_BITS as usize,
    ;
}

/// Shifting a word so that bit `k` is least significant yields the value of
/// its first `k + 1` bits.
pub(crate) proof fn lemma_word_prefix_value(w: usize, k: int)
    requires
        0 <= k < WORD_BITS,
    ensures
        (w >> ((WORD_BITS - 1 - k) as usize)) as int == word_of_bits(word_prefix(w, k + 1)),
    decreases k,
{
    lemma_word_bits();
    let s = (WORD_BITS - 1 - k) as usize;
    if k == 0 {
        assert(w >> s == (if (w >> s) & 1usize == 1usize {
            1usize
        } else {
            0usize
        })) by (bit_vector)
            requires
                s == (WORD_BITS - 1) as usize,
        ;
        assert(word_of_bits(Seq::<bool>::empty()) == 0);
        assert(word_prefix(w, 1).drop_last() =~= Seq::<bool>::empty());
        assert(word_prefix(w, 1).last() == word_bit(w, 0));
    } else {
        lemma_word_prefix_value(w, k - 1);
        let s1 = (s + 1) as usize;
        assert(w >> s == 2 * (w >> s1) + ((w >> s) & 1usize) && ((w >> s) & 1usize == 1usize || (w
            >> s) & 1usize == 0usize)) by (bit_vector)
            requires
                s1 == s + 1 && s < (WORD_BITS - 1) as usize,
        ;
        assert(word_prefix(w, k + 1).drop_last() =~= word_prefix(w, k));
        assert(word_prefix(w, k + 1).last() == word_bit(w, k));
    }
}

/// Every bit of `a & b`, `a | b`, `a ^ b` and `!a` is the pointwise
/// combination of the operands' bits.
proof fn lemma_word_bitwise(a: usize, b: usize)
    ensures
        forall|j: int|
            0 <= j < WORD_BITS ==> word_bit(a & b, j) == (word_bit(a, j) && word_bit(b, j)),
        forall|j: int|
            0 <= j < WORD_BITS ==> word_bit(a | b, j) == (word_bit(a, j) || word_bit(b, j)),
        forall|j: int|
            0 <= j < WORD_BITS ==> word_bit(a ^ b, j) == (word_bit(a, j) != word_bit(b, j)),
        forall|j: int| 0 <= j < WORD_BITS ==> word_bit(!a, j) == !word_bit(a, j),
{
    assert forall|j: int| 0 <= j < WORD_BITS implies word_bit(a & b, j) == (word_bit(a, j)
        && word_bit(b, j)) && word_bit(a | b, j) == (word_bit(a, j) || word_bit(b, j)) && word_bit(
        a ^ b,
        j,
    ) == (word_bit(a, j) != word_bit(b, j)) && word_bit(!a, j) == !word_bit(a, j) by {
        let t = (WORD_BITS - 1 - j) as usize;
        assert((((a & b) >> t) & 1usize == 1usize) == (((a >> t) & 1usize == 1usize) && ((b >> t)
            & 1usize == 1usize)) && (((a | b) >> t) & 1usize == 1usize) == (((a >> t) & 1usize
            == 1usize) || ((b >> t) & 1usize == 1usize)) && (((a ^ b) >> t) & 1usize == 1usize)
            == (((a >> t) & 1usize == 1usize) != ((b >> t) & 1usize == 1usize)) && (((!a) >> t)
            & 1usize == 1usize) == !((a >> t) & 1usize == 1usize)) by (bit_vector)
            requires
                t < WORD_BITS as usize,
        ;
    }
}

} // verus!
