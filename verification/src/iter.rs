//! Bidirectional, length-aware traversal over the logical bit range.
//!
//! Both iterators walk the range `[0, len)` from either end, meeting in the
//! middle, report their exact remaining count, and stay exhausted once
//! empty. `Iter` borrows the vector; `IntoIter` owns it.

use vstd::prelude::*;

use crate::BitVec;
use crate::primitive::Bit;

verus! {

/// A borrowing iterator over the bits of a vector.
pub struct Iter<'a> {
    vec: &'a BitVec,
    start: usize,
    end: usize,
}

/// A consuming iterator over the bits of a vector.
pub struct IntoIter {
    vec: BitVec,
    start: usize,
    end: usize,
}

impl BitVec {
    /// Returns an iterator over the bits of the vector.
    pub fn iter(&self) -> (r: Iter<'_>)
        ensures
            r.remaining() == self@,
    {
        let r = Iter { vec: self, start: 0, end: self.len() };
        proof {
            assert(r.remaining() =~= self@);
        }
        r
    }

    /// Turns the vector into a consuming iterator over its bits.
    pub fn into_iter(self) -> (r: IntoIter)
        ensures
            r.remaining() == self@,
    {
        let end = self.len();
        let r = IntoIter { vec: self, start: 0, end };
        proof {
            assert(r.remaining() =~= r.vec@);
        }
        r
    }
}

impl<'a> Iter<'a> {
    /// The traversal stays inside the vector's bits.
    #[verifier::type_invariant]
    spec fn iter_wf(&self) -> bool {
        self.start <= self.end <= self.vec@.len()
    }

    /// The bits not yet produced, front to back.
    pub closed spec fn remaining(&self) -> Seq<bool> {
        self.vec@.subrange(self.start as int, self.end as int)
    }

    /// The next bit from the front, or `None` once the ends have met;
    /// exhausted iterators stay exhausted.
    pub fn next(&mut self) -> (r: Option<Bit>)
        ensures
            old(self).remaining().len() == 0 ==> r == None::<Bit> && final(self).remaining()
                == old(self).remaining(),
            old(self).remaining().len() > 0 ==> r == Some(old(self).remaining().first()) && final(self).remaining() == old(self).remaining().drop_first(),
    {
        proof {
            use_type_invariant(&*self);
        }
        if self.start < self.end {
            let bit = self.vec.get_unchecked(self.start);
            self.start = self.start + 1;
            proof {
                assert(final(self).remaining() =~= old(self).remaining().drop_first());
            }
            Some(bit)
        } else {
            None
        }
    }

    /// The next bit from the back, or `None` once the ends have met;
    /// exhausted iterators stay exhausted.
    pub fn next_back(&mut self) -> (r: Option<Bit>)
        ensures
            old(self).remaining().len() == 0 ==> r == None::<Bit> && final(self).remaining()
                == old(self).remaining(),
            old(self).remaining().len() > 0 ==> r == Some(old(self).remaining().last()) && final(self).remaining() == old(self).remaining().drop_last(),
    {
        proof {
            use_type_invariant(&*self);
        }
        if self.start < self.end {
            self.end = self.end - 1;
            let bit = self.vec.get_unchecked(self.end);
            proof {
                assert(final(self).remaining() =~= old(self).remaining().drop_last());
            }
            Some(bit)
        } else {
            None
        }
    }

    /// The exact number of bits left, as both bounds of the size hint.
    pub fn size_hint(&self) -> (r: (usize, Option<usize>))
        ensures
            r.0 == self.remaining().len(),
            r.1 == Some(r.0),
    {
        proof {
            use_type_invariant(&*self);
        }
        let n = self.end - self.start;
        (n, Some(n))
    }

    /// The exact number of bits left.
    pub fn len(&self) -> (r: usize)
        ensures
            r == self.remaining().len(),
    {
        proof {
            use_type_invariant(&*self);
        }
        self.end - self.start
    }
}

impl IntoIter {
    /// The traversal stays inside the vector's bits.
    #[verifier::type_invariant]
    spec fn iter_wf(&self) -> bool {
        self.start <= self.end <= self.vec@.len()
    }

    /// The bits not yet produced, front to back.
    pub closed spec fn remaining(&self) -> Seq<bool> {
        self.vec@.subrange(self.start as int, self.end as int)
    }

    /// The next bit from the front, or `None` once the ends have met;
    /// exhausted iterators stay exhausted.
    pub fn next(&mut self) -> (r: Option<Bit>)
        ensures
            old(self).remaining().len() == 0 ==> r == None::<Bit> && final(self).remaining()
                == old(self).remaining(),
            old(self).remaining().len() > 0 ==> r == Some(old(self).remaining().first()) && final(self).remaining() == old(self).remaining().drop_first(),
    {
        proof {
            use_type_invariant(&*self);
        }
        if self.start < self.end {
            let bit = self.vec.get_unchecked(self.start);
            self.start = self.start + 1;
            proof {
                assert(final(self).remaining() =~= old(self).remaining().drop_first());
            }
            Some(bit)
        } else {
            None
        }
    }

    /// The next bit from the back, or `None` once the ends have met;
    /// exhausted iterators stay exhausted.
    pub fn next_back(&mut self) -> (r: Option<Bit>)
        ensures
            old(self).remaining().len() == 0 ==> r == None::<Bit> && final(self).remaining()
                == old(self).remaining(),
            old(self).remaining().len() > 0 ==> r == Some(old(self).remaining().last()) && final(self).remaining() == old(self).remaining().drop_last(),
    {
        proof {
            use_type_invariant(&*self);
        }
        if self.start < self.end {
            self.end = self.end - 1;
            let bit = self.vec.get_unchecked(self.end);
            proof {
                assert(final(self).remaining() =~= old(self).remaining().drop_last());
            }
            Some(bit)
        } else {
            None
        }
    }

    /// The exact number of bits left, as both bounds of the size hint.
    pub fn size_hint(&self) -> (r: (usize, Option<usize>))
        ensures
            r.0 == self.remaining().len(),
            r.1 == Some(r.0),
    {
        proof {
            use_type_invariant(&*self);
        }
        let n = self.end - self.start;
        (n, Some(n))
    }

    /// The exact number of bits left.
    pub fn len(&self) -> (r: usize)
        ensures
            r == self.remaining().len(),
    {
        proof {
            use_type_invariant(&*self);
        }
        self.end - self.start
    }
}

} // verus!
