//! Elementwise bitwise algebra over two vectors.
//!
//! A binary operator combines two vectors word by word over the words the
//! shorter operand needs; the result's length is the shorter length. Bits
//! beyond that length inside the final word are whatever the word operation
//! produced there; equality and every accessor ignore them.

use vstd::prelude::*;

use crate::BitVec;
use crate::lemma_index_word;
use crate::lemma_words_for_monotonic;
use crate::primitive::WORD_BITS;
use crate::primitive::Word;
use crate::primitive::lemma_word_bits;
use crate::primitive::word_bit;
use crate::words_for;

mod and;
mod not;
mod or;
mod xor;

verus! {

/// A binary operator applied bit by bit.
#[derive(Clone, Copy)]
pub enum BitOp {
    /// Both bits set.
    And,
    /// Either bit set.
    Or,
    /// Exactly one bit set.
    Xor,
}

impl BitOp {
    /// The operator on one pair of bits.
    pub open spec fn apply(self, a: bool, b: bool) -> bool {
        match self {
            BitOp::And => a && b,
            BitOp::Or => a || b,
            BitOp::Xor => a != b,
        }
    }

    /// The operator on a whole word, bit for bit.
    fn apply_word(self, a: Word, b: Word) -> (r: Word)
        ensures
            forall|j: int|
                0 <= j < WORD_BITS ==> word_bit(r.0, j) == self.apply(
                    word_bit(a.0, j),
                    word_bit(b.0, j),
                ),
    {
        match self {
            BitOp::And => a.and(b),
            BitOp::Or => a.or(b),
            BitOp::Xor => a.xor(b),
        }
    }
}

/// The elementwise combination of two bit sequences, truncated to the
/// shorter length.
pub open spec fn binary_bits(op: BitOp, a: Seq<bool>, b: Seq<bool>) -> Seq<bool> {
    Seq::new(
        vstd::math::min(a.len() as int, b.len() as int) as nat,
        |i: int| op.apply(a[i], b[i]),
    )
}

/// AND of two bit sequences, truncated to the shorter length.
pub open spec fn and_bits(a: Seq<bool>, b: Seq<bool>) -> Seq<bool> {
    binary_bits(BitOp::And, a, b)
}

/// OR of two bit sequences, truncated to the shorter length.
pub open spec fn or_bits(a: Seq<bool>, b: Seq<bool>) -> Seq<bool> {
    binary_bits(BitOp::Or, a, b)
}

/// XOR of two bit sequences, truncated to the shorter length.
pub open spec fn xor_bits(a: Seq<bool>, b: Seq<bool>) -> Seq<bool> {
    binary_bits(BitOp::Xor, a, b)
}

/// The complement of a bit sequence, same length.
pub open spec fn not_bits(a: Seq<bool>) -> Seq<bool> {
    Seq::new(a.len(), |i: int| !a[i])
}

/// A binary operator is elementwise symmetric in its operands when the bit
/// operator is; all three are.
pub proof fn lemma_binary_bits_commutative(op: BitOp, a: Seq<bool>, b: Seq<bool>)
    ensures
        binary_bits(op, a, b) == binary_bits(op, b, a),
{
    assert(binary_bits(op, a, b) =~= binary_bits(op, b, a));
}

impl BitVec {
    /// Combines two borrowed vectors into a fresh one, word by word.
    fn bitwise_operation(&self, rhs: &Self, op: BitOp) -> (r: Self)
        ensures
            r@ == binary_bits(op, self@, rhs@),
            r.spec_words().len() == words_for(r@.len() as int),
    {
        proof {
            use_type_invariant(&*self);
            use_type_invariant(&*rhs);
            lemma_word_bits();
        }
        let len = if self.len < rhs.len {
            self.len
        } else {
            rhs.len
        };
        proof {
            lemma_words_for_monotonic(len as int, self.len as int);
            lemma_words_for_monotonic(len as int, rhs.len as int);
            vstd::arithmetic::div_mod::lemma_div_nonincreasing(len as int, WORD_BITS as int);
            if len > 0 {
                vstd::arithmetic::div_mod::lemma_div_decreases(len as int, WORD_BITS as int);
            }
        }
        let buf_len = len / WORD_BITS + if len % WORD_BITS != 0 {
            1
        } else {
            0
        };
        let mut buf: Vec<Word> = Vec::new();
        for k in 0..buf_len
            invariant
                buf_len == words_for(len as int),
                buf_len <= self.buf@.len(),
                buf_len <= rhs.buf@.len(),
                buf@.len() == k,
                forall|q: int, j: int|
                    0 <= q < k && 0 <= j < WORD_BITS ==> #[trigger] word_bit(buf@[q].0, j)
                        == op.apply(word_bit(self.buf@[q].0, j), word_bit(rhs.buf@[q].0, j)),
        {
            let word = op.apply_word(self.buf[k], rhs.buf[k]);
            buf.push(word);
        }
        let r = BitVec { len, buf };
        proof {
            let w = WORD_BITS as int;
            assert forall|i: int| 0 <= i < len implies r@[i] == op.apply(self@[i], rhs@[i]) by {
                lemma_index_word(i, len as int);
            }
            assert(r@ =~= binary_bits(op, self@, rhs@));
        }
        r
    }

    /// Combines an owned vector with a borrowed one, reusing the owned
    /// buffer in place and truncating it to the words of the result.
    fn bitwise_operation_consume_self(self, rhs: &Self, op: BitOp) -> (r: Self)
        ensures
            r@ == binary_bits(op, self@, rhs@),
            r.spec_words().len() == words_for(r@.len() as int),
    {
        proof {
            use_type_invariant(&self);
            use_type_invariant(&*rhs);
            lemma_word_bits();
        }
        let ghost orig = self;
        let mut this = self;
        let len = if this.len < rhs.len {
            this.len
        } else {
            rhs.len
        };
        proof {
            lemma_words_for_monotonic(len as int, orig.len as int);
            lemma_words_for_monotonic(len as int, rhs.len as int);
            vstd::arithmetic::div_mod::lemma_div_nonincreasing(len as int, WORD_BITS as int);
            if len > 0 {
                vstd::arithmetic::div_mod::lemma_div_decreases(len as int, WORD_BITS as int);
            }
        }
        let buf_len = len / WORD_BITS + if len % WORD_BITS != 0 {
            1
        } else {
            0
        };
        this.len = len;
        for k in 0..buf_len
            invariant
                buf_len == words_for(len as int),
                buf_len <= orig.buf@.len(),
                buf_len <= rhs.buf@.len(),
                this.len == len,
                this.buf@.len() == orig.buf@.len(),
                words_for(len as int) <= this.buf@.len(),
                forall|q: int| k <= q < orig.buf@.len() ==> this.buf@[q] == orig.buf@[q],
                forall|q: int, j: int|
                    0 <= q < k && 0 <= j < WORD_BITS ==> #[trigger] word_bit(this.buf@[q].0, j)
                        == op.apply(word_bit(orig.buf@[q].0, j), word_bit(rhs.buf@[q].0, j)),
        {
            let word = op.apply_word(this.buf[k], rhs.buf[k]);
            this.buf[k] = word;
        }
        let keep = this.len;
        this.len = 0;
        let mut buf = Vec::new();
        core::mem::swap(&mut buf, &mut this.buf);
        buf.truncate(buf_len);
        core::mem::swap(&mut buf, &mut this.buf);
        this.len = keep;
        proof {
            let w = WORD_BITS as int;
            assert forall|i: int| 0 <= i < len implies this@[i] == op.apply(orig@[i], rhs@[i]) by {
                lemma_index_word(i, len as int);
            }
            assert(this@ =~= binary_bits(op, orig@, rhs@));
        }
        this
    }

    /// Combines two owned vectors, reusing the left buffer in place.
    fn bitwise_operation_consume_both(self, rhs: Self, op: BitOp) -> (r: Self)
        ensures
            r@ == binary_bits(op, self@, rhs@),
            r.spec_words().len() == words_for(r@.len() as int),
    {
        self.bitwise_operation_consume_self(&rhs, op)
    }
}

} // verus!
