//! The `AND` operator across the four ownership combinations.

use vstd::prelude::*;

use crate::BitVec;
use crate::bitwise::BitOp;
use crate::bitwise::and_bits;
use crate::bitwise::lemma_binary_bits_commutative;

verus! {

impl BitVec {
    /// AND of two owned vectors, truncated to the shorter length; reuses
    /// the left operand's buffer.
    pub fn bitand(self, rhs: BitVec) -> (r: BitVec)
        ensures
            r@ == and_bits(self@, rhs@),
    {
        self.bitwise_operation_consume_both(rhs, BitOp::And)
    }

    /// AND of an owned vector with a borrowed one, truncated to the shorter
    /// length; reuses the owned buffer.
    pub fn bitand_ref(self, rhs: &BitVec) -> (r: BitVec)
        ensures
            r@ == and_bits(self@, rhs@),
    {
        self.bitwise_operation_consume_self(rhs, BitOp::And)
    }

    /// AND of a borrowed vector with an owned one, truncated to the shorter
    /// length; the operator is symmetric, so the owned buffer is reused.
    pub fn ref_bitand(&self, rhs: BitVec) -> (r: BitVec)
        ensures
            r@ == and_bits(self@, rhs@),
    {
        proof {
            lemma_binary_bits_commutative(BitOp::And, self@, rhs@);
        }
        rhs.bitand_ref(self)
    }

    /// AND of two borrowed vectors, truncated to the shorter length.
    pub fn ref_bitand_ref(&self, rhs: &BitVec) -> (r: BitVec)
        ensures
            r@ == and_bits(self@, rhs@),
    {
        self.bitwise_operation(rhs, BitOp::And)
    }
}

} // verus!
