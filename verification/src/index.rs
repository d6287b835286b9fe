//! Indexing of sequence pointers by scalars and by ranges.

use crate::ptr::{offset_addr, slice_from_raw_parts, ConstPtr, FatPtr, SlicePtr};
use vstd::prelude::*;

verus! {

/// The outcome of a checked access: nothing, or the place that was found.
pub enum Option<T> {
    Nothing,
    Something(T),
}

/// The half-open interval of indices from `start` up to, not including, `end`.
pub struct Range<Idx> {
    pub start: Idx,
    pub end: Idx,
}

/// Indexing a collection: which place of `self` an index of type `Idx` selects.
pub trait Index<Idx> {
    type Output;

    /// The address arithmetic of the access stays within the machine's addresses.
    spec fn indexable(&self, index: Idx) -> bool;

    /// The place that the access leads to.
    spec fn indexed(&self, index: Idx) -> Self::Output;

    /// The place of `self` that `index` selects.
    fn index(&self, index: Idx) -> (r: Self::Output)
        requires
            self.indexable(index),
        ensures
            r == self.indexed(index),
    ;
}

/// An index into a collection of type `T`. Two kinds of index exist for a
/// sequence pointer: a scalar selects one element, a range selects a
/// narrower sequence within the same storage.
pub trait SliceIndex<T>: Sized {
    type Output;

    /// What the checked path validates before it hands out a place.
    spec fn checks(self, slice: &T) -> bool;

    /// The address arithmetic of the access stays within the machine's addresses.
    spec fn reachable(self, slice: &T) -> bool;

    /// The place that the access leads to.
    spec fn place(self, slice: &T) -> Self::Output;

    /// Checked access: a place exactly when the validation passes.
    fn get(self, slice: &T) -> (r: Option<Self::Output>)
        requires
            self.checks(slice) ==> self.reachable(slice),
        ensures
            r == (if self.checks(slice) {
                Option::Something(self.place(slice))
            } else {
                Option::Nothing
            }),
    ;

    /// Access that trusts the caller to have validated the index.
    fn get_unchecked(self, slice: T) -> (r: Self::Output)
        requires
            self.reachable(&slice),
        ensures
            r == self.place(&slice),
    ;

    /// Access that trusts the caller to have validated the index.
    fn index(self, slice: &T) -> (r: Self::Output)
        requires
            self.reachable(slice),
        ensures
            r == self.place(slice),
    ;
}

/// A scalar selects the element at that position. The checked path hands
/// out a place for the positions below the length of the sequence.
impl SliceIndex<SlicePtr> for usize {
    type Output = ConstPtr;

    open spec fn checks(self, slice: &SlicePtr) -> bool {
        self < slice@.len
    }

    open spec fn reachable(self, slice: &SlicePtr) -> bool {
        self <= isize::MAX && offset_addr(slice@.data, self as int) <= usize::MAX
    }

    open spec fn place(self, slice: &SlicePtr) -> ConstPtr {
        ConstPtr {
            addr: offset_addr(slice@.data, self as int) as usize,
            stride: slice@.data.stride,
        }
    }

    fn get(self, slice: &SlicePtr) -> (r: Option<ConstPtr>) {
        if self < slice.len() {
            Option::Something(self.get_unchecked(*slice))
        } else {
            Option::Nothing
        }
    }

    fn get_unchecked(self, slice: SlicePtr) -> (r: ConstPtr) {
        slice.as_ptr().add(self)
    }

    fn index(self, slice: &SlicePtr) -> (r: ConstPtr) {
        self.get_unchecked(*slice)
    }
}

/// A range selects the `end - start` elements from position `start` on.
/// The checked path validates that the range does not start after its end;
/// it does not compare the end with the length of the sequence.
impl SliceIndex<SlicePtr> for Range<usize> {
    type Output = SlicePtr;

    open spec fn checks(self, slice: &SlicePtr) -> bool {
        self.start <= self.end
    }

    open spec fn reachable(self, slice: &SlicePtr) -> bool {
        &&& self.start <= self.end
        &&& self.start <= isize::MAX
        &&& offset_addr(slice@.data, self.start as int) <= usize::MAX
    }

    open spec fn place(self, slice: &SlicePtr) -> SlicePtr {
        SlicePtr::from_parts(
            FatPtr {
                data: ConstPtr {
                    addr: offset_addr(slice@.data, self.start as int) as usize,
                    stride: slice@.data.stride,
                },
                len: (self.end - self.start) as usize,
            },
        )
    }

    fn get(self, slice: &SlicePtr) -> (r: Option<SlicePtr>) {
        if self.start > self.end {
            Option::Nothing
        } else {
            Option::Something(self.get_unchecked(*slice))
        }
    }

    fn get_unchecked(self, slice: SlicePtr) -> (r: SlicePtr) {
        let a: ConstPtr = slice.as_ptr();
        let b: ConstPtr = a.add(self.start);
        slice_from_raw_parts(b, self.end - self.start)
    }

    fn index(self, slice: &SlicePtr) -> (r: SlicePtr) {
        self.get_unchecked(*slice)
    }
}

/// A sequence pointer is indexed by whatever is an index of it: the access
/// goes to the index type's own method.
impl<I: SliceIndex<SlicePtr>> Index<I> for SlicePtr {
    type Output = I::Output;

    open spec fn indexable(&self, index: I) -> bool {
        index.reachable(self)
    }

    open spec fn indexed(&self, index: I) -> I::Output {
        index.place(self)
    }

    fn index(&self, index: I) -> (r: I::Output) {
        index.index(self)
    }
}

/// Checked access by a scalar hands out a place exactly for the indices below
/// the length of the sequence, and the place is that of the element at that
/// offset from the first.
pub proof fn lemma_scalar_access(slice: SlicePtr, i: usize)
    ensures
        i.checks(&slice) <==> 0 <= i < slice@.len,
        i.reachable(&slice) ==> i.place(&slice).addr == slice@.data.addr + i * slice@.data.stride,
        i.place(&slice).stride == slice@.data.stride,
{
}

/// Checked access by a range hands out nothing exactly when the range starts
/// after its end. Otherwise the place is a sequence of `end - start` elements.
pub proof fn lemma_range_access(slice: SlicePtr, range: Range<usize>)
    ensures
        !range.checks(&slice) <==> range.start > range.end,
        range.checks(&slice) ==> range.place(&slice)@.len == range.end - range.start,
        range.place(&slice)@.data.stride == slice@.data.stride,
{
    SlicePtr::lemma_from_parts(range.place(&slice)@);
    broadcast use SlicePtr::lemma_from_parts;
}

/// The elements of the sequence that a range selects are elements of the
/// sequence it was taken from: element `k` of the narrower sequence has the
/// address of element `start + k` of the wider one.
pub proof fn lemma_range_aliases(slice: SlicePtr, range: Range<usize>, k: usize)
    requires
        range.reachable(&slice),
        range.start + k <= usize::MAX,
        ((range.start + k) as usize).reachable(&slice),
    ensures
        k.reachable(&range.place(&slice)),
        k.place(&range.place(&slice)) == ((range.start + k) as usize).place(&slice),
{
    broadcast use SlicePtr::lemma_from_parts;

    let stride = slice@.data.stride as int;
    assert((range.start + k) * stride == range.start * stride + k * stride) by (nonlinear_arith);
    assert(k * stride >= 0) by (nonlinear_arith)
        requires
            k >= 0,
            stride >= 0,
    ;
    assert(range.start * stride >= 0) by (nonlinear_arith)
        requires
            range.start >= 0,
            stride >= 0,
    ;
}

} // verus!
