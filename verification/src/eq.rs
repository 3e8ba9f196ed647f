//! Equality over the logical bits alone.
//!
//! Two vectors are equal when their lengths match and every live bit
//! matches; slack words and garbage bits past the length never count. The
//! comparison goes word by word over the head, then normalizes the final
//! live word by shifting bit `len - 1` down to the least significant
//! position so that the garbage above the length cancels out.

use vstd::prelude::*;

use crate::BitVec;
use crate::lemma_abs_index;
use crate::lemma_index_word;
use crate::lemma_offset_in_last_word;
use crate::primitive::WORD_BITS;
use crate::primitive::lemma_shift_bits_eq;
use crate::primitive::lemma_shift_neq_witness;
use crate::primitive::lemma_word_bits;
use crate::primitive::lemma_xor_shift_zero;
use crate::primitive::word_bit;

verus! {

impl vstd::std_specs::cmp::PartialEqSpecImpl for BitVec {
    open spec fn obeys_eq_spec() -> bool {
        true
    }

    open spec fn eq_spec(&self, other: &BitVec) -> bool {
        self@ == other@
    }
}

impl PartialEq for BitVec {
    /// Two vectors are equal exactly when they hold the same bits in the
    /// same order, whatever their buffers hold beyond the length.
    fn eq(&self, other: &Self) -> (r: bool) {
        proof {
            use_type_invariant(&*self);
            use_type_invariant(&*other);
            lemma_word_bits();
        }
        if self.len != other.len {
            proof {
                assert(self@.len() != other@.len());
                assert(self@ != other@);
            }
            return false;
        }
        if self.len == 0 {
            proof {
                assert(self@ =~= other@);
            }
            return true;
        }
        let ghost w = WORD_BITS as int;
        let last = self.len - 1;
        let period = last / WORD_BITS;
        let offset = last % WORD_BITS;
        proof {
            lemma_index_word(last as int, self.len as int);
        }
        for i in 0..period
            invariant
                self.wf(),
                other.wf(),
                self.len == other.len,
                0 < self.len <= usize::MAX,
                last == self.len - 1,
                w == WORD_BITS as int,
                period == last as int / (WORD_BITS as int),
                offset == last as int % (WORD_BITS as int),
                period < self.buf@.len(),
                period < other.buf@.len(),
                forall|q: int| 0 <= q < i ==> self.buf@[q] == other.buf@[q],
        {
            if self.buf[i].0 != other.buf[i].0 {
                proof {
                    let a = self.buf@[i as int].0;
                    let b = other.buf@[i as int].0;
                    assert(a >> 0usize == a && b >> 0usize == b) by (bit_vector);
                    lemma_shift_neq_witness(a, b, 0);
                    let j = choose|j: int|
                        0 <= j <= WORD_BITS - 1 && word_bit(a, j) != word_bit(b, j);
                    lemma_abs_index(i as int, j, self.len as int);
                    let idx = i as int * w + j;
                    assert(self@[idx] != other@[idx]);
                }
                return false;
            }
        }
        let a = self.buf[period];
        let b = other.buf[period];
        let ghost s = (WORD_BITS - 1 - offset as int) as usize;
        let x = a.xor(b);
        let aligned = x.align_last_to_lsb(offset);
        proof {
            lemma_xor_shift_zero(a.0, b.0, s);
        }
        if aligned.0 != 0 {
            proof {
                lemma_shift_neq_witness(a.0, b.0, s);
                let j = choose|j: int|
                    0 <= j <= WORD_BITS - 1 - s && word_bit(a.0, j) != word_bit(b.0, j);
                lemma_abs_index(period as int, j, self.len as int);
                let idx = period as int * w + j;
                assert(self@[idx] != other@[idx]);
            }
            false
        } else {
            proof {
                assert forall|idx: int| 0 <= idx < self.len implies self@[idx] == other@[idx] by {
                    lemma_index_word(idx, self.len as int);
                    let p = idx / w;
                    if p == period as int {
                        lemma_offset_in_last_word(idx, self.len as int);
                        lemma_shift_bits_eq(a.0, b.0, offset as int, idx % w);
                    }
                }
                assert(self@ =~= other@);
            }
            true
        }
    }
}

impl Eq for BitVec {

}

} // verus!
