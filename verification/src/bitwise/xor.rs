//! The `XOR` operator across the four ownership combinations.

use vstd::prelude::*;

use crate::BitVec;
use crate::bitwise::BitOp;
use crate::bitwise::xor_bits;
use crate::bitwise::lemma_binary_bits_commutative;

verus! {

impl BitVec {
    /// XOR of two owned vectors, truncated to the shorter length; reuses
    /// the left operand's buffer.
    pub fn bitxor(self, rhs: BitVec) -> (r: BitVec)
        ensures
            r@ == xor_bits(self@, rhs@),
    {
        self.bitwise_operation_consume_both(rhs, BitOp::Xor)
    }

    /// XOR of an owned vector with a borrowed one, truncated to the shorter
    /// length; reuses the owned buffer.
    pub fn bitxor_ref(self, rhs: &BitVec) -> (r: BitVec)
        ensures
            r@ == xor_bits(self@, rhs@),
    {
        self.bitwise_operation_consume_self(rhs, BitOp::Xor)
    }

    /// XOR of a borrowed vector with an owned one, truncated to the shorter
    /// length; the operator is symmetric, so the owned buffer is reused.
    pub fn ref_bitxor(&self, rhs: BitVec) -> (r: BitVec)
        ensures
            r@ == xor_bits(self@, rhs@),
    {
        proof {
            lemma_binary_bits_commutative(BitOp::Xor, self@, rhs@);
        }
        rhs.bitxor_ref(self)
    }

    /// XOR of two borrowed vectors, truncated to the shorter length.
    pub fn ref_bitxor_ref(&self, rhs: &BitVec) -> (r: BitVec)
        ensures
            r@ == xor_bits(self@, rhs@),
    {
        self.bitwise_operation(rhs, BitOp::Xor)
    }
}

} // verus!
