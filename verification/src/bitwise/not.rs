//! The `NOT` operator, consuming and borrowing.

use vstd::prelude::*;

use crate::BitVec;
use crate::bitwise::not_bits;
use crate::lemma_index_word;
use crate::primitive::WORD_BITS;
use crate::primitive::Word;
use crate::primitive::lemma_word_bits;
use crate::primitive::word_bit;
use crate::words_for;

verus! {

impl BitVec {
    /// NOT of an owned vector: flips every live word in place, keeping the
    /// length and any slack words.
    pub fn not(self) -> (r: BitVec)
        ensures
            r@ == not_bits(self@),
            r.spec_words().len() == self.spec_words().len(),
    {
        proof {
            use_type_invariant(&self);
            lemma_word_bits();
        }
        let ghost orig = self;
        let mut this = self;
        let buf_len = this.buf_used();
        for k in 0..buf_len
            invariant
                buf_len <= orig.buf@.len(),
                this.len == orig.len,
                this.buf@.len() == orig.buf@.len(),
                words_for(this.len as int) <= this.buf@.len(),
                forall|q: int| k <= q < orig.buf@.len() ==> this.buf@[q] == orig.buf@[q],
                forall|q: int, j: int|
                    0 <= q < k && 0 <= j < WORD_BITS ==> #[trigger] word_bit(this.buf@[q].0, j)
                        == !word_bit(orig.buf@[q].0, j),
        {
            let word = this.buf[k].not();
            this.buf[k] = word;
        }
        proof {
            assert forall|i: int| 0 <= i < this.len implies this@[i] == !orig@[i] by {
                lemma_index_word(i, this.len as int);
            }
            assert(this@ =~= not_bits(orig@));
        }
        this
    }

    /// NOT of a borrowed vector: collects the flipped live words into a
    /// fresh vector of the same length, with no slack.
    pub fn ref_not(&self) -> (r: BitVec)
        ensures
            r@ == not_bits(self@),
            r.spec_words().len() == words_for(self@.len() as int),
    {
        proof {
            use_type_invariant(&*self);
            lemma_word_bits();
        }
        let buf_len = self.buf_used();
        let mut buf: Vec<Word> = Vec::new();
        for k in 0..buf_len
            invariant
                buf_len == words_for(self.len as int),
                buf_len <= self.buf@.len(),
                buf@.len() == k,
                forall|q: int, j: int|
                    0 <= q < k && 0 <= j < WORD_BITS ==> #[trigger] word_bit(buf@[q].0, j)
                        == !word_bit(self.buf@[q].0, j),
        {
            let word = self.buf[k].not();
            buf.push(word);
        }
        let r = BitVec { len: self.len, buf };
        proof {
            assert forall|i: int| 0 <= i < r.len implies r@[i] == !self@[i] by {
                lemma_index_word(i, r.len as int);
            }
            assert(r@ =~= not_bits(self@));
        }
        r
    }
}

} // verus!
