//! Serialization framing: a vector travels as its length plus its packed
//! bytes.
//!
//! Encoding emits `len` and the `ceil(len / 8)` bytes of `to_bytes`.
//! Decoding validates that the supplied buffer holds at least that many
//! bytes and fails with a descriptive error otherwise; it never silently
//! truncates or pads.

use vstd::prelude::*;

use crate::BitVec;
use crate::convert::bits_of_bytes;
use crate::convert::bytes_for;
use crate::convert::bytes_of_bits;
use crate::convert::lemma_byte_index;
use crate::primitive::Byte;

use vstd::arithmetic::div_mod::lemma_fundamental_div_mod;

verus! {

/// Why a decode was refused.
#[derive(Clone, Copy, Debug, PartialEq, Eq, Structural)]
pub enum DecodeError {
    /// The byte buffer holds fewer than `ceil(len / 8)` bytes.
    InsufficientBytes,
}

impl DecodeError {
    /// A human-readable account of the failure.
    pub fn message(&self) -> (r: &'static str) {
        "bytes insufficient for given bit length"
    }
}

impl BitVec {
    /// The wire form of the vector: its bit length and its packed bytes.
    pub fn to_parts(&self) -> (r: (usize, Vec<Byte>))
        ensures
            r.0 == self@.len(),
            r.1@ == bytes_of_bits(self@),
    {
        (self.len(), self.to_bytes())
    }

    /// Rebuilds a vector from a bit length and a byte buffer: the first
    /// `len` bits of the buffer, most significant first. Fails exactly when
    /// the buffer holds fewer than `ceil(len / 8)` bytes.
    pub fn from_parts(len: usize, bytes: &[Byte]) -> (r: Result<BitVec, DecodeError>)
        ensures
            bytes@.len() >= bytes_for(len as int) ==> r is Ok && r->Ok_0@ == bits_of_bytes(
                bytes@,
            ).take(len as int),
            bytes@.len() < bytes_for(len as int) ==> r == Err::<
                BitVec,
                DecodeError,
            >(DecodeError::InsufficientBytes),
    {
        let needed = len / 8 + if len % 8 != 0 {
            1
        } else {
            0
        };
        if bytes.len() < needed {
            return Err(DecodeError::InsufficientBytes);
        }
        proof {
            lemma_fundamental_div_mod(len as int, 8);
            assert(len as int <= 8 * needed as int) by (nonlinear_arith)
                requires
                    len as int == 8 * (len as int / 8) + len as int % 8 && 0 <= len as int % 8 < 8
                        && needed as int == len as int / 8 + if len as int % 8 == 0 {
                        0int
                    } else {
                        1int
                    },
            ;
        }
        let mut r = BitVec::with_capacity(len);
        for i in 0..len
            invariant
                len as int <= 8 * bytes@.len(),
                r@ == bits_of_bytes(bytes@).take(i as int),
        {
            proof {
                lemma_byte_index(i as int, bytes@.len() as int);
            }
            let byte = bytes[i / 8];
            let offset = i % 8;
            let bit = (byte >> ((7 - offset) as u8)) & 1u8 == 1u8;
            r.push(bit);
            proof {
                assert(bits_of_bytes(bytes@).take(i as int + 1) =~= bits_of_bytes(
                    bytes@,
                ).take(i as int).push(bit));
            }
        }
        Ok(r)
    }
}

} // verus!
