//! A bit vector: a growable sequence of single bits, packed into machine
//! words, with vector-like push/pop/get/set and elementwise bitwise algebra.
//!
//! Bits are stored most-significant-bit first inside each word: bit 0 of the
//! sequence is the most significant bit of the first word. The buffer may
//! hold more initialized words than the logical length needs (trailing
//! slack); bits at logical positions at or beyond the length are never
//! exposed and are ignored by equality.

use vstd::prelude::*;

mod bitwise;
mod codec;
mod convert;
mod eq;
mod hash;
mod iter;
mod laws;
mod primitive;

pub use codec::DecodeError;
pub use laws::lemma_absorption;
pub use laws::lemma_binary_len;
pub use laws::lemma_bytes_roundtrip;
pub use laws::lemma_eq_ignores_slack;
pub use laws::lemma_not_involutive;
pub use laws::lemma_parts_roundtrip;
pub use laws::lemma_push_pop;

pub use hash::hash_words_spec;
pub use iter::IntoIter;
pub use iter::Iter;

pub use convert::bit_at;
pub use convert::bits_of_bytes;
pub use convert::byte_of_bits;
pub use convert::bytes_for;
pub use convert::bytes_of_bits;

pub use bitwise::BitOp;
pub use bitwise::and_bits;
pub use bitwise::binary_bits;
pub use bitwise::not_bits;
pub use bitwise::or_bits;
pub use bitwise::xor_bits;

use primitive::lemma_word_bits;

pub use primitive::Bit;
pub use primitive::Byte;
pub use primitive::Word;
pub use primitive::WORD_BITS;
pub use primitive::WORD_BYTES;
pub use primitive::byte_bit;
pub use primitive::word_bit;

use vstd::arithmetic::div_mod::lemma_fundamental_div_mod;
use vstd::arithmetic::div_mod::lemma_fundamental_div_mod_converse;

verus! {

/// A bit vector.
///
/// `len` counts the bits in use; `buf` holds at least the words needed for
/// those bits, possibly followed by slack words left behind by earlier
/// operations. Popping never shrinks the buffer; `shrink_to_fit` reclaims
/// the slack.
#[derive(Debug)]
pub struct BitVec {
    len: usize,
    buf: Vec<Word>,
}

/// Number of words needed to hold `n` bits.
pub open spec fn words_for(n: int) -> int {
    n / (WORD_BITS as int) + if n % (WORD_BITS as int) == 0 {
        0int
    } else {
        1int
    }
}

impl View for BitVec {
    type V = Seq<bool>;

    /// The logical content: the sequence of the first `len` bits, read
    /// across the words most-significant-bit first.
    closed spec fn view(&self) -> Seq<bool> {
        Seq::new(
            self.len as nat,
            |i: int| word_bit(self.buf@[i / (WORD_BITS as int)].0, i % (WORD_BITS as int)),
        )
    }
}

/// An index below `len` lands strictly inside the words that `len` bits need.
proof fn lemma_index_word(i: int, len: int)
    requires
        0 <= i < len,
    ensures
        0 <= i / (WORD_BITS as int) < words_for(len),
        0 <= i % (WORD_BITS as int) < WORD_BITS as int,
        words_for(len) <= len,
{
    let w = WORD_BITS as int;
    lemma_word_bits();
    lemma_fundamental_div_mod(i, w);
    lemma_fundamental_div_mod(len, w);
    assert(i / w >= 0) by (nonlinear_arith)
        requires
            i >= 0 && w > 0,
    ;
    assert(len / w >= 0) by (nonlinear_arith)
        requires
            len > 0 && w > 0,
    ;
    assert(i % w >= 0 && i % w < w);
    assert(len % w >= 0 && len % w < w);
    assert(i / w <= len / w) by (nonlinear_arith)
        requires
            0 <= i < len && w > 0,
    ;
    if len % w == 0 {
        assert(i / w < len / w) by (nonlinear_arith)
            requires
                0 <= i < len && w > 0 && len % w == 0,
        ;
    }
    assert(words_for(len) <= len) by (nonlinear_arith)
        requires
            len > 0 && w >= 2,
    ;
}

/// Two indices in the same word with the same offset are the same index.
proof fn lemma_loc_unique(i: int, j: int)
    requires
        0 <= i,
        0 <= j,
        i / (WORD_BITS as int) == j / (WORD_BITS as int),
        i % (WORD_BITS as int) == j % (WORD_BITS as int),
    ensures
        i == j,
{
    let w = WORD_BITS as int;
    lemma_word_bits();
    lemma_fundamental_div_mod(i, w);
    lemma_fundamental_div_mod(j, w);
}

/// Among indices below `len`, those sharing the final live word sit at or
/// before the offset of bit `len - 1`.
proof fn lemma_offset_in_last_word(i: int, len: int)
    requires
        0 <= i < len,
        i / (WORD_BITS as int) == (len - 1) / (WORD_BITS as int),
    ensures
        i % (WORD_BITS as int) <= (len - 1) % (WORD_BITS as int),
{
    let w = WORD_BITS as int;
    lemma_word_bits();
    lemma_fundamental_div_mod(i, w);
    lemma_fundamental_div_mod(len - 1, w);
}

/// The bit index `q * WORD_BITS + j` decomposes back into word `q` and
/// offset `j`, and lies below `len` whenever its word is live.
pub(crate) proof fn lemma_abs_index(q: int, j: int, len: int)
    requires
        0 < len,
        0 <= j < WORD_BITS as int,
        0 <= q <= (len - 1) / (WORD_BITS as int),
        q == (len - 1) / (WORD_BITS as int) ==> j <= (len - 1) % (WORD_BITS as int),
    ensures
        0 <= q * (WORD_BITS as int) + j < len,
        (q * (WORD_BITS as int) + j) / (WORD_BITS as int) == q,
        (q * (WORD_BITS as int) + j) % (WORD_BITS as int) == j,
{
    let w = WORD_BITS as int;
    lemma_word_bits();
    let period = (len - 1) / w;
    let offset = (len - 1) % w;
    lemma_fundamental_div_mod(len - 1, w);
    lemma_fundamental_div_mod_converse(q * w + j, w, q, j);
    assert(q * w + j >= 0) by (nonlinear_arith)
        requires
            q >= 0 && w > 0 && j >= 0,
    ;
    if q < period {
        assert(q * w + j <= (period - 1) * w + (w - 1)) by (nonlinear_arith)
            requires
                q <= period - 1 && j <= w - 1 && w > 0,
        ;
        assert((period - 1) * w + (w - 1) == period * w - 1) by (nonlinear_arith);
        assert(period * w <= len - 1) by (nonlinear_arith)
            requires
                len - 1 == w * period + offset && offset >= 0,
        ;
    } else {
        assert(q * w + j <= period * w + offset);
        assert(period * w + offset == len - 1) by (nonlinear_arith)
            requires
                len - 1 == w * period + offset,
        ;
    }
}

/// Indices below `len` that share the word of bit `len` sit strictly before
/// its offset.
proof fn lemma_offset_before_end(i: int, len: int)
    requires
        0 <= i < len,
        i / (WORD_BITS as int) == len / (WORD_BITS as int),
    ensures
        i % (WORD_BITS as int) < len % (WORD_BITS as int),
{
    let w = WORD_BITS as int;
    lemma_word_bits();
    lemma_fundamental_div_mod(i, w);
    lemma_fundamental_div_mod(len, w);
}

/// One more bit needs the words up to and including the word of bit `len`.
proof fn lemma_words_for_succ(len: int)
    requires
        0 <= len,
    ensures
        words_for(len + 1) == len / (WORD_BITS as int) + 1,
{
    let w = WORD_BITS as int;
    lemma_word_bits();
    lemma_fundamental_div_mod(len, w);
    let q = len / w;
    let r = len % w;
    if r + 1 == w {
        lemma_fundamental_div_mod_converse(len + 1, w, q + 1, 0);
    } else {
        lemma_fundamental_div_mod_converse(len + 1, w, q, r + 1);
    }
}

/// Fewer bits never need more words.
proof fn lemma_words_for_monotonic(a: int, b: int)
    requires
        0 <= a <= b,
    ensures
        words_for(a) <= words_for(b),
{
    let w = WORD_BITS as int;
    lemma_word_bits();
    lemma_fundamental_div_mod(a, w);
    lemma_fundamental_div_mod(b, w);
    assert(a / w <= b / w) by (nonlinear_arith)
        requires
            0 <= a <= b && w > 0,
    ;
}

/// Relies on `Vec::capacity`: the number of elements the vector can hold
/// without reallocating, never below its length.
#[verifier::external_body]
fn word_vec_capacity(v: &Vec<Word>) -> (r: usize)
    ensures
        r >= v@.len(),
{
    v.capacity()
}

/// Relies on `Vec::reserve_exact`: it only grows capacity and leaves the
/// elements untouched.
#[verifier::external_body]
fn word_vec_reserve_exact(v: &mut Vec<Word>, additional: usize)
    ensures
        final(v)@ == old(v)@,
{
    v.reserve_exact(additional)
}

/// Relies on `Vec::shrink_to_fit`: it only releases excess capacity and
/// leaves the elements untouched.
#[verifier::external_body]
fn word_vec_shrink_to_fit(v: &mut Vec<Word>)
    ensures
        final(v)@ == old(v)@,
{
    v.shrink_to_fit()
}

/// Relies on `Vec::shrink_to`: it only releases excess capacity down to the
/// given lower bound and leaves the elements untouched.
#[verifier::external_body]
fn word_vec_shrink_to(v: &mut Vec<Word>, min_capacity: usize)
    ensures
        final(v)@ == old(v)@,
{
    v.shrink_to(min_capacity)
}

impl BitVec {
    /// The storage invariant: the buffer holds every word the length needs.
    #[verifier::type_invariant]
    pub(crate) closed spec fn wf(&self) -> bool {
        words_for(self.len as int) <= self.buf@.len()
    }

    /// The words of the buffer, as a sequence of their integer values.
    pub closed spec fn spec_words(&self) -> Seq<usize> {
        self.buf@.map_values(|w: Word| w.0)
    }

    /// Number of initialized storage words, slack included.
    pub fn buf_len(&self) -> (r: usize)
        ensures
            r == self.spec_words().len(),
    {
        self.buf.len()
    }

    /// The storage word at the given position, raw bits included.
    pub fn word_at(&self, index: usize) -> (r: Word)
        requires
            index < self.spec_words().len(),
        ensures
            r.0 == self.spec_words()[index as int],
    {
        self.buf[index]
    }

    /// Returns the number of bits in the vector.
    #[inline]
    pub fn len(&self) -> (r: usize)
        ensures
            r == self@.len(),
    {
        self.len
    }

    /// Returns `true` if the vector contains no bits.
    #[inline]
    pub fn is_empty(&self) -> (r: bool)
        ensures
            r == (self@.len() == 0),
    {
        self.len == 0
    }

    /// Returns the number of words used to store the bits in the vector:
    /// always at most the buffer length.
    pub fn buf_used(&self) -> (r: usize)
        ensures
            r == words_for(self@.len() as int),
            r <= self.spec_words().len(),
    {
        proof {
            use_type_invariant(&*self);
            lemma_word_bits();
            if self.len > 0 {
                lemma_index_word(self.len - 1, self.len as int);
            }
        }
        self.len / WORD_BITS + if self.len % WORD_BITS != 0 {
            1
        } else {
            0
        }
    }

    /// Creates a new, empty bit vector.
    #[inline]
    pub fn new() -> (r: Self)
        ensures
            r@ == Seq::<bool>::empty(),
            r.spec_words().len() == 0,
    {
        let r = BitVec { len: 0, buf: Vec::new() };
        proof {
            assert(r@ =~= Seq::<bool>::empty());
            assert(r.spec_words() =~= Seq::<usize>::empty());
        }
        r
    }

    /// Creates a new, empty bit vector whose storage is pre-sized to hold at
    /// least `capacity` bits without reallocating.
    pub fn with_capacity(capacity: usize) -> (r: Self)
        ensures
            r@ == Seq::<bool>::empty(),
            r.spec_words().len() == 0,
    {
        proof {
            lemma_word_bits();
        }
        let buf_capacity = capacity / WORD_BITS + if capacity % WORD_BITS != 0 {
            1
        } else {
            0
        };
        let r = BitVec { len: 0, buf: Vec::with_capacity(buf_capacity) };
        proof {
            assert(r@ =~= Seq::<bool>::empty());
            assert(r.spec_words() =~= Seq::<usize>::empty());
        }
        r
    }

    /// Returns the bit at the specified index; the caller must keep the
    /// index in bounds.
    #[inline]
    pub fn get_unchecked(&self, index: usize) -> (r: Bit)
        requires
            index < self@.len(),
        ensures
            r == self@[index as int],
    {
        proof {
            use_type_invariant(&*self);
            lemma_word_bits();
            lemma_index_word(index as int, self.len as int);
        }
        let period = index / WORD_BITS;
        let offset = index % WORD_BITS;
        let word = self.buf[period];
        word.get(offset)
    }

    /// Returns the bit at the specified index, if in bounds.
    #[inline]
    pub fn get(&self, index: usize) -> (r: Option<Bit>)
        ensures
            r == (if index < self@.len() {
                Some(self@[index as int])
            } else {
                None::<Bit>
            }),
    {
        if index >= self.len {
            None
        } else {
            Some(self.get_unchecked(index))
        }
    }

    /// Sets the bit at the specified index; the caller must keep the index
    /// in bounds.
    pub fn set_unchecked(&mut self, index: usize, value: Bit)
        requires
            index < old(self)@.len(),
        ensures
            final(self)@ == old(self)@.update(index as int, value),
            final(self).spec_words().len() == old(self).spec_words().len(),
    {
        proof {
            use_type_invariant(&*self);
            lemma_word_bits();
            lemma_index_word(index as int, self.len as int);
        }
        let ghost prev = *self;
        let period = index / WORD_BITS;
        let offset = index % WORD_BITS;
        let mut word = self.buf[period];
        word.set(offset, value);
        self.buf[period] = word;
        proof {
            let w = WORD_BITS as int;
            assert forall|i: int| 0 <= i < self.len implies self@[i] == (if i == index as int {
                value
            } else {
                prev@[i]
            }) by {
                lemma_index_word(i, self.len as int);
                if i / w == period as int {
                    if i % w == offset as int {
                        lemma_loc_unique(i, index as int);
                    }
                }
            }
            assert(final(self)@ =~= old(self)@.update(index as int, value));
            assert(final(self).spec_words().len() == old(self).spec_words().len());
        }
    }

    /// Sets the bit at the specified index to the specified value, if in
    /// bounds; returns `None` (changing nothing) when out of bounds.
    #[must_use]
    pub fn set(&mut self, index: usize, value: Bit) -> (r: Option<()>)
        ensures
            index < old(self)@.len() ==> r == Some(()) && final(self)@ == old(self)@.update(
                index as int,
                value,
            ),
            index >= old(self)@.len() ==> r == None::<()> && final(self)@ == old(self)@
                && final(self).spec_words() == old(self).spec_words(),
            final(self).spec_words().len() == old(self).spec_words().len(),
    {
        if index >= self.len {
            None
        } else {
            self.set_unchecked(index, value);
            Some(())
        }
    }

    /// Appends the word to the buffer, leaving the length alone.
    fn buf_push_word(&mut self, w: Word)
        ensures
            final(self).len == old(self).len,
            final(self).buf@ == old(self).buf@.push(w),
    {
        proof {
            use_type_invariant(&*self);
        }
        let len = self.len;
        self.len = 0;
        let mut buf = Vec::new();
        core::mem::swap(&mut buf, &mut self.buf);
        buf.push(w);
        core::mem::swap(&mut buf, &mut self.buf);
        self.len = len;
    }

    /// Appends a bit at the logical end. A partial final word takes the bit
    /// in place; otherwise a fresh word is appended with only its most
    /// significant bit reflecting the value.
    pub fn push(&mut self, value: Bit)
        requires
            old(self)@.len() < usize::MAX,
        ensures
            final(self)@ == old(self)@.push(value),
            final(self).spec_words().len() == vstd::math::max(
                old(self).spec_words().len() as int,
                words_for(old(self)@.len() as int + 1),
            ),
    {
        proof {
            use_type_invariant(&*self);
            lemma_word_bits();
            lemma_words_for_succ(self.len as int);
        }
        let ghost prev = *self;
        let ghost w = WORD_BITS as int;
        let period = self.len / WORD_BITS;
        let offset = self.len % WORD_BITS;
        if period < self.buf.len() {
            let mut word = self.buf[period];
            word.set(offset, value);
            self.buf[period] = word;
            self.len = self.len + 1;
            proof {
                assert forall|i: int| 0 <= i < self.len implies self@[i] == (if i < prev.len as int {
                    prev@[i]
                } else {
                    value
                }) by {
                    lemma_index_word(i, self.len as int);
                    if i < prev.len as int && i / w == period as int {
                        lemma_offset_before_end(i, prev.len as int);
                    }
                }
                assert(final(self)@ =~= old(self)@.push(value));
            }
        } else {
            let word = if value {
                Word::msb_set()
            } else {
                Word::msb_clear()
            };
            proof {
                // A full final word: the length is word-aligned and the
                // buffer holds exactly its words.
                lemma_fundamental_div_mod(self.len as int, w);
                if self.len as int % w != 0 {
                    assert(words_for(self.len as int) == period as int + 1);
                }
            }
            self.buf_push_word(word);
            self.len = self.len + 1;
            proof {
                assert forall|i: int| 0 <= i < self.len implies self@[i] == (if i < prev.len as int {
                    prev@[i]
                } else {
                    value
                }) by {
                    lemma_index_word(i, self.len as int);
                    if i < prev.len as int {
                        lemma_index_word(i, prev.len as int);
                    } else {
                        lemma_loc_unique(i, prev.len as int);
                    }
                }
                assert(final(self)@ =~= old(self)@.push(value));
            }
        }
    }

    /// Removes and returns the last bit, or `None` if the vector is empty.
    /// The buffer keeps its words; popping only lowers the length.
    pub fn pop(&mut self) -> (r: Option<Bit>)
        ensures
            old(self)@.len() == 0 ==> r == None::<Bit> && final(self)@ == old(self)@,
            old(self)@.len() > 0 ==> r == Some(old(self)@.last()) && final(self)@ == old(
                self,
            )@.drop_last(),
            final(self).spec_words() == old(self).spec_words(),
    {
        proof {
            use_type_invariant(&*self);
            lemma_word_bits();
        }
        if self.len == 0 {
            return None;
        }
        let ghost prev = *self;
        proof {
            lemma_words_for_monotonic(self.len as int - 1, self.len as int);
            lemma_index_word(self.len as int - 1, self.len as int);
        }
        self.len = self.len - 1;
        let period = self.len / WORD_BITS;
        let offset = self.len % WORD_BITS;
        let word = self.buf[period];
        let value = word.get(offset);
        proof {
            assert(final(self)@ =~= old(self)@.drop_last());
        }
        Some(value)
    }

    /// Returns the total number of bits the vector can hold without
    /// reallocating: the buffer's word capacity times the word width,
    /// saturating instead of wrapping.
    pub fn capacity(&self) -> (r: usize)
        ensures
            r >= self@.len(),
            r == usize::MAX || r % WORD_BITS == 0,
    {
        proof {
            use_type_invariant(&*self);
            lemma_word_bits();
        }
        let cap = word_vec_capacity(&self.buf);
        if cap > usize::MAX / WORD_BITS {
            proof {
                assert(usize::MAX >= self@.len());
            }
            usize::MAX
        } else {
            proof {
                let w = WORD_BITS as int;
                let len = self.len as int;
                assert(cap as int * w <= (usize::MAX as int / w) * w <= usize::MAX as int)
                    by (nonlinear_arith)
                    requires
                        cap as int <= usize::MAX as int / w && w > 0,
                ;
                if len > 0 {
                    lemma_fundamental_div_mod(len, w);
                    let q = len / w;
                    let r = len % w;
                    if r == 0 {
                        assert(q * w >= len) by (nonlinear_arith)
                            requires
                                len == w * q + r && r == 0,
                        ;
                    } else {
                        assert((q + 1) * w >= len) by (nonlinear_arith)
                            requires
                                len == w * q + r && 0 <= r < w,
                        ;
                    }
                    assert(cap as int * w >= words_for(len) * w) by (nonlinear_arith)
                        requires
                            cap as int >= words_for(len) && w > 0,
                    ;
                }
                assert((cap as int * w) % w == 0) by (nonlinear_arith)
                    requires
                        w > 0,
                ;
            }
            cap * WORD_BITS
        }
    }

    /// Reserves capacity for at least `additional` more bits, word-granular.
    /// The content is unchanged.
    pub fn reserve(&mut self, additional: usize)
        requires
            old(self)@.len() + additional <= usize::MAX,
        ensures
            final(self)@ == old(self)@,
            final(self).spec_words() == old(self).spec_words(),
    {
        proof {
            use_type_invariant(&*self);
            lemma_word_bits();
        }
        let capacity = self.len + additional;
        let buf_capacity = capacity / WORD_BITS + if capacity % WORD_BITS != 0 {
            1
        } else {
            0
        };
        if buf_capacity >= self.buf.len() {
            let buf_additional = buf_capacity - self.buf.len();
            let len = self.len;
            self.len = 0;
            let mut buf = Vec::new();
            core::mem::swap(&mut buf, &mut self.buf);
            buf.reserve(buf_additional);
            core::mem::swap(&mut buf, &mut self.buf);
            self.len = len;
        }
    }

    /// Reserves capacity for at least `additional` more bits, word-granular,
    /// without the speculative headroom of `reserve`. The content is
    /// unchanged.
    pub fn reserve_exact(&mut self, additional: usize)
        requires
            old(self)@.len() + additional <= usize::MAX,
        ensures
            final(self)@ == old(self)@,
            final(self).spec_words() == old(self).spec_words(),
    {
        proof {
            use_type_invariant(&*self);
            lemma_word_bits();
        }
        let capacity = self.len + additional;
        let buf_capacity = capacity / WORD_BITS + if capacity % WORD_BITS != 0 {
            1
        } else {
            0
        };
        if buf_capacity >= self.buf.len() {
            let buf_additional = buf_capacity - self.buf.len();
            let len = self.len;
            self.len = 0;
            let mut buf = Vec::new();
            core::mem::swap(&mut buf, &mut self.buf);
            word_vec_reserve_exact(&mut buf, buf_additional);
            core::mem::swap(&mut buf, &mut self.buf);
            self.len = len;
        }
    }

    /// Shrinks the buffer to exactly the words the length needs, then
    /// releases excess capacity. The content is unchanged.
    pub fn shrink_to_fit(&mut self)
        ensures
            final(self)@ == old(self)@,
            final(self).spec_words().len() == words_for(old(self)@.len() as int),
    {
        proof {
            use_type_invariant(&*self);
            lemma_word_bits();
        }
        let ghost prev = *self;
        let used = self.buf_used();
        let len = self.len;
        self.len = 0;
        let mut buf = Vec::new();
        core::mem::swap(&mut buf, &mut self.buf);
        buf.truncate(used);
        word_vec_shrink_to_fit(&mut buf);
        core::mem::swap(&mut buf, &mut self.buf);
        self.len = len;
        proof {
            assert forall|i: int| 0 <= i < self.len implies self@[i] == prev@[i] by {
                lemma_index_word(i, self.len as int);
            }
            assert(final(self)@ =~= old(self)@);
        }
    }

    /// Shrinks the buffer with a lower bound: capacity stays at least as
    /// large as both the length and `min_capacity` bits. The content is
    /// unchanged.
    pub fn shrink_to(&mut self, min_capacity: usize)
        ensures
            final(self)@ == old(self)@,
            final(self).spec_words().len() == (if words_for(min_capacity as int) < old(
                self,
            ).spec_words().len() {
                vstd::math::max(
                    words_for(old(self)@.len() as int),
                    words_for(min_capacity as int),
                )
            } else {
                old(self).spec_words().len() as int
            }),
    {
        proof {
            use_type_invariant(&*self);
            lemma_word_bits();
        }
        let ghost prev = *self;
        let buf_min_capacity = min_capacity / WORD_BITS + if min_capacity % WORD_BITS != 0 {
            1
        } else {
            0
        };
        if buf_min_capacity < self.buf.len() {
            let used = self.buf_used();
            let buf_new_len = if used > buf_min_capacity {
                used
            } else {
                buf_min_capacity
            };
            let len = self.len;
            self.len = 0;
            let mut buf = Vec::new();
            core::mem::swap(&mut buf, &mut self.buf);
            buf.truncate(buf_new_len);
            word_vec_shrink_to_fit(&mut buf);
            core::mem::swap(&mut buf, &mut self.buf);
            self.len = len;
            proof {
                assert forall|i: int| 0 <= i < self.len implies self@[i] == prev@[i] by {
                    lemma_index_word(i, self.len as int);
                }
                assert(final(self)@ =~= old(self)@);
            }
        } else {
            let cap = word_vec_capacity(&self.buf);
            if buf_min_capacity < cap {
                let len = self.len;
                self.len = 0;
                let mut buf = Vec::new();
                core::mem::swap(&mut buf, &mut self.buf);
                word_vec_shrink_to(&mut buf, buf_min_capacity);
                core::mem::swap(&mut buf, &mut self.buf);
                self.len = len;
            }
            proof {
                assert(final(self)@ =~= old(self)@);
            }
        }
    }

    /// Appends one all-zero word of slack to the buffer, leaving the logical
    /// content alone. Lets a caller exercise that slack words never change
    /// what the vector observes.
    pub fn push_unused_word(&mut self)
        ensures
            final(self)@ == old(self)@,
            final(self).spec_words() == old(self).spec_words().push(0usize),
    {
        proof {
            use_type_invariant(&*self);
            lemma_word_bits();
        }
        let ghost prev = *self;
        let word = Word::clear();
        self.buf_push_word(word);
        proof {
            assert forall|i: int| 0 <= i < self.len implies self@[i] == prev@[i] by {
                lemma_index_word(i, self.len as int);
            }
            assert(final(self)@ =~= old(self)@);
            assert(final(self).spec_words() =~= old(self).spec_words().push(0usize));
        }
    }

    /// Appends every bit of the slice, in order.
    pub fn extend(&mut self, values: &[Bit])
        requires
            old(self)@.len() + values@.len() <= usize::MAX,
        ensures
            final(self)@ == old(self)@ + values@,
    {
        let n = values.len();
        self.reserve(n);
        let ghost prev = *self;
        for k in 0..n
            invariant
                self@ == prev@ + values@.take(k as int),
                values@.len() == n,
                prev@.len() + n <= usize::MAX,
        {
            self.push(values[k]);
            proof {
                assert(prev@ + values@.take(k as int + 1) =~= (prev@ + values@.take(
                    k as int,
                )).push(values@[k as int]));
            }
        }
        proof {
            assert(values@.take(n as int) =~= values@);
        }
    }

    /// The bit at the specified index; the index must be in bounds.
    #[inline]
    pub fn index(&self, index: usize) -> (r: Bit)
        requires
            index < self@.len(),
        ensures
            r == self@[index as int],
    {
        self.get_unchecked(index)
    }
}

impl Clone for BitVec {
    /// Duplicates only the live words: the clone carries no slack.
    fn clone(&self) -> (r: Self)
        ensures
            r@ == self@,
            r.spec_words().len() == words_for(self@.len() as int),
    {
        proof {
            use_type_invariant(&*self);
            lemma_word_bits();
        }
        let used = self.buf_used();
        let mut buf: Vec<Word> = Vec::new();
        for k in 0..used
            invariant
                used <= self.buf@.len(),
                buf@ == self.buf@.subrange(0, k as int),
        {
            buf.push(self.buf[k]);
            proof {
                assert(self.buf@.subrange(0, k as int + 1) =~= self.buf@.subrange(
                    0,
                    k as int,
                ).push(self.buf@[k as int]));
            }
        }
        let r = BitVec { len: self.len, buf };
        proof {
            assert forall|i: int| 0 <= i < self.len implies r@[i] == self@[i] by {
                lemma_index_word(i, self.len as int);
            }
            assert(r@ =~= self@);
        }
        r
    }
}

impl Default for BitVec {
    /// The default bit vector is empty.
    fn default() -> (r: Self)
        ensures
            r@ == Seq::<bool>::empty(),
            r.spec_words().len() == 0,
    {
        BitVec::new()
    }
}

} // verus!
