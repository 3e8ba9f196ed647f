//! A hashable form that depends on the logical bits alone.
//!
//! Hashing must agree with equality, so slack words and garbage bits past
//! the length may not reach the hasher. `hash_words` normalizes the vector
//! the same way equality compares it: the head words verbatim, then the
//! final live word shifted so that bit `len - 1` is least significant. A
//! caller hashes the length and these words.

use vstd::prelude::*;

use crate::BitVec;
use crate::lemma_abs_index;
use crate::lemma_index_word;
use crate::primitive::WORD_BITS;
use crate::primitive::Word;
use crate::primitive::lemma_word_bits;
use crate::primitive::lemma_word_prefix_value;
use crate::primitive::word_of_bits;
use crate::primitive::word_prefix;

use vstd::arithmetic::div_mod::lemma_fundamental_div_mod;

verus! {

/// The word values that represent a bit sequence for hashing: one value per
/// live word, the final one holding only the significant prefix. A function
/// of the bits alone, so equal sequences hash equal.
pub open spec fn hash_words_spec(bits: Seq<bool>) -> Seq<int> {
    if bits.len() == 0 {
        Seq::<int>::empty()
    } else {
        let w = WORD_BITS as int;
        let period = (bits.len() - 1) / w;
        Seq::new(
            (period + 1) as nat,
            |p: int|
                if p < period {
                    word_of_bits(bits.subrange(p * w, p * w + w))
                } else {
                    word_of_bits(bits.subrange(period * w, bits.len() as int))
                },
        )
    }
}

impl BitVec {
    /// The normalized words of the vector: what a hasher sees, after the
    /// length itself. Determined by the logical bits alone.
    pub fn hash_words(&self) -> (r: Vec<Word>)
        ensures
            r@.len() == hash_words_spec(self@).len(),
            forall|p: int| 0 <= p < r@.len() ==> r@[p].0 as int == hash_words_spec(self@)[p],
    {
        proof {
            use_type_invariant(&*self);
            lemma_word_bits();
        }
        let mut r: Vec<Word> = Vec::new();
        if self.len == 0 {
            return r;
        }
        let ghost w = WORD_BITS as int;
        let ghost bits = self@;
        let last = self.len - 1;
        let period = last / WORD_BITS;
        let offset = last % WORD_BITS;
        proof {
            lemma_index_word(last as int, self.len as int);
        }
        for p in 0..period
            invariant
                self.wf(),
                w == WORD_BITS as int,
                bits == self@,
                0 < self.len,
                last == self.len - 1,
                period == last as int / w,
                offset == last as int % w,
                period < self.buf@.len(),
                r@.len() == p,
                forall|q: int|
                    0 <= q < p ==> #[trigger] r@[q].0 as int == word_of_bits(
                        bits.subrange(q * w, q * w + w),
                    ),
        {
            let word = self.buf[p];
            proof {
                let s = (WORD_BITS - 1 - (WORD_BITS as int - 1)) as usize;
                let wv = word.0;
                assert(wv >> s == wv) by (bit_vector)
                    requires
                        s == 0usize,
                ;
                lemma_word_prefix_value(word.0, WORD_BITS as int - 1);
                lemma_abs_index(p as int, w - 1, self.len as int);
                assert(p as int * w + w <= bits.len());
                assert forall|j: int| 0 <= j < w implies #[trigger] word_prefix(word.0, w)[j] == bits.subrange(
                    p as int * w,
                    p as int * w + w,
                )[j] by {
                    lemma_abs_index(p as int, j, self.len as int);
                }
                assert(word_prefix(word.0, w) =~= bits.subrange(p as int * w, p as int * w + w));
            }
            r.push(word);
        }
        let word = self.buf[period];
        let aligned = word.align_last_to_lsb(offset);
        proof {
            lemma_word_prefix_value(word.0, offset as int);
            lemma_fundamental_div_mod(last as int, w);
            assert(period as int * w + offset as int == last as int) by (nonlinear_arith)
                requires
                    last as int == w * (period as int) + offset as int,
            ;
            assert(period as int * w <= bits.len());
            assert forall|j: int| 0 <= j <= offset as int implies #[trigger] word_prefix(
                word.0,
                offset as int + 1,
            )[j] == bits.subrange(period as int * w, bits.len() as int)[j] by {
                lemma_abs_index(period as int, j, self.len as int);
            }
            assert(word_prefix(word.0, offset as int + 1) =~= bits.subrange(
                period as int * w,
                bits.len() as int,
            ));
        }
        r.push(aligned);
        proof {
            assert(r@.len() == hash_words_spec(bits).len());
        }
        r
    }
}

} // verus!
