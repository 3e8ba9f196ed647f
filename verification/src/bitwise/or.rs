//! The `OR` operator across the four ownership combinations.

use vstd::prelude::*;

use crate::BitVec;
use crate::bitwise::BitOp;
use crate::bitwise::or_bits;
use crate::bitwise::lemma_binary_bits_commutative;

verus! {

impl BitVec {
    /// OR of two owned vectors, truncated to the shorter length; reuses
    /// the left operand's buffer.
    pub fn bitor(self, rhs: BitVec) -> (r: BitVec)
        ensures
            r@ == or_bits(self@, rhs@),
    {
        self.bitwise_operation_consume_both(rhs, BitOp::Or)
    }

    /// OR of an owned vector with a borrowed one, truncated to the shorter
    /// length; reuses the owned buffer.
    pub fn bitor_ref(self, rhs: &BitVec) -> (r: BitVec)
        ensures
            r@ == or_bits(self@, rhs@),
    {
        self.bitwise_operation_consume_self(rhs, BitOp::Or)
    }

    /// OR of a borrowed vector with an owned one, truncated to the shorter
    /// length; the operator is symmetric, so the owned buffer is reused.
    pub fn ref_bitor(&self, rhs: BitVec) -> (r: BitVec)
        ensures
            r@ == or_bits(self@, rhs@),
    {
        proof {
            lemma_binary_bits_commutative(BitOp::Or, self@, rhs@);
        }
        rhs.bitor_ref(self)
    }

    /// OR of two borrowed vectors, truncated to the shorter length.
    pub fn ref_bitor_ref(&self, rhs: &BitVec) -> (r: BitVec)
        ensures
            r@ == or_bits(self@, rhs@),
    {
        self.bitwise_operation(rhs, BitOp::Or)
    }
}

} // verus!
