//! The algebraic laws of the library, stated over the views that the
//! executable functions' contracts use.

use vstd::prelude::*;

use crate::bitwise::and_bits;
use crate::bitwise::not_bits;
use crate::bitwise::or_bits;
use crate::bitwise::xor_bits;
use crate::convert::bits_of_bytes;
use crate::convert::bytes_of_bits;
use crate::convert::lemma_byte_index;
use crate::convert::lemma_byte_of_bits_bit;

use vstd::arithmetic::div_mod::lemma_fundamental_div_mod;

verus! {

/// AND, OR and XOR of two sequences all have the length of the shorter
/// operand.
pub proof fn lemma_binary_len(a: Seq<bool>, b: Seq<bool>)
    ensures
        and_bits(a, b).len() == vstd::math::min(a.len() as int, b.len() as int),
        or_bits(a, b).len() == vstd::math::min(a.len() as int, b.len() as int),
        xor_bits(a, b).len() == vstd::math::min(a.len() as int, b.len() as int),
{
}

/// Complementing twice gives back the original sequence, so both the owned
/// and the borrowed NOT forms cancel themselves.
pub proof fn lemma_not_involutive(a: Seq<bool>)
    ensures
        not_bits(not_bits(a)) == a,
{
    assert(not_bits(not_bits(a)) =~= a);
}

/// Absorption: for equal-length operands, `(a & b) | (a & !b) == a`, bit
/// for bit.
pub proof fn lemma_absorption(a: Seq<bool>, b: Seq<bool>)
    requires
        a.len() == b.len(),
    ensures
        or_bits(and_bits(a, b), and_bits(a, not_bits(b))) == a,
{
    assert(or_bits(and_bits(a, b), and_bits(a, not_bits(b))) =~= a);
}

/// Packing bits into bytes and reading them back is the identity on
/// sequences whose length is a multiple of eight.
pub proof fn lemma_bytes_roundtrip(s: Seq<bool>)
    requires
        s.len() % 8 == 0,
    ensures
        bits_of_bytes(bytes_of_bits(s)) == s,
{
    lemma_parts_roundtrip(s);
    let bs = bytes_of_bits(s);
    lemma_fundamental_div_mod(s.len() as int, 8);
    assert(8 * bs.len() == s.len());
    assert(bits_of_bytes(bs).take(s.len() as int) =~= bits_of_bytes(bs));
}

/// Packing bits into bytes and reading back the first `len` bits is the
/// identity for any length: what decoding a freshly encoded vector does.
pub proof fn lemma_parts_roundtrip(s: Seq<bool>)
    ensures
        bits_of_bytes(bytes_of_bits(s)).take(s.len() as int) == s,
{
    let bs = bytes_of_bits(s);
    let n = s.len() as int;
    assert(8 * bs.len() >= n) by {
        lemma_fundamental_div_mod(n, 8);
        if n % 8 != 0 {
            assert(8 * (n / 8 + 1) >= n) by (nonlinear_arith)
                requires
                    n == 8 * (n / 8) + n % 8 && 0 <= n % 8 < 8,
            ;
        }
    }
    assert forall|i: int| 0 <= i < n implies bits_of_bytes(bs)[i] == s[i] by {
        lemma_byte_index(i, bs.len() as int);
        lemma_fundamental_div_mod(i, 8);
        lemma_byte_of_bits_bit(s, 8 * (i / 8), i % 8);
        assert(8 * (i / 8) + i % 8 == i);
    }
    assert(bits_of_bytes(bs).take(n) =~= s);
}

/// Equality and hashing ignore trailing storage slack: vectors holding the
/// same logical bits are equal and feed a hasher the same words, whatever
/// their buffers hold beyond the length.
pub proof fn lemma_eq_ignores_slack(a: &crate::BitVec, b: &crate::BitVec)
    requires
        a@ == b@,
    ensures
        vstd::std_specs::cmp::PartialEqSpec::eq_spec(a, b),
        crate::hash::hash_words_spec(a@) == crate::hash::hash_words_spec(b@),
{
}

/// Pushing a bit and popping it again returns exactly that bit and leaves
/// the sequence as it was.
pub proof fn lemma_push_pop(s: Seq<bool>, b: bool)
    ensures
        s.push(b).len() == s.len() + 1,
        s.push(b).last() == b,
        s.push(b).drop_last() == s,
{
    assert(s.push(b).drop_last() =~= s);
}

} // verus!
