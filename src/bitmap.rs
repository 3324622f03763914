//! A fixed-length bitmap that records which buffers of a slab are in use.
use vstd::prelude::*;

verus! {

/// A fixed-length sequence of bits, backed by `bitvec`.
#[verifier::external_body]
pub struct Bitmap {
    bits: bitvec::vec::BitVec,
}

/// The bits that a bitmap holds, in index order.
pub uninterp spec fn bitmap_bits(b: Bitmap) -> Seq<bool>;

impl Bitmap {
    pub open spec fn view(&self) -> Seq<bool> {
        bitmap_bits(*self)
    }

    /// Relies on `BitVec::repeat`: `len` bits, each equal to the given value.
    #[verifier::external_body]
    pub fn zeros(len: usize) -> (r: Bitmap)
        ensures
            bitmap_bits(r) == Seq::new(len as nat, |i: int| false),
    {
        Bitmap { bits: bitvec::vec::BitVec::repeat(false, len) }
    }

    /// Relies on `BitSlice::first_zero`: the lowest index of a cleared bit.
    #[verifier::external_body]
    pub fn first_zero(&self) -> (r: Option<usize>)
        ensures
            match r {
                Some(i) => i < bitmap_bits(*self).len() && !bitmap_bits(*self)[i as int]
                    && forall|j: int| 0 <= j < i ==> #[trigger] bitmap_bits(*self)[j],
                None => forall|j: int|
                    0 <= j < bitmap_bits(*self).len() ==> #[trigger] bitmap_bits(*self)[j],
            },
    {
        self.bits.first_zero()
    }

    /// Relies on `BitSlice::set`: writes one bit; it panics out of bounds.
    #[verifier::external_body]
    pub fn set(&mut self, index: usize, value: bool)
        requires
            index < old(self)@.len(),
        ensures
            bitmap_bits(*final(self)) == bitmap_bits(*old(self)).update(index as int, value),
    {
        self.bits.set(index, value)
    }
}

} // verus!
