//! Thin pointers, sequence pointers and arithmetic on them.

use vstd::prelude::*;

verus! {

/// A thin pointer: the byte address of a value together with the size in
/// bytes of the type it points to.
#[derive(Clone, Copy, PartialEq, Eq, Structural, Debug)]
pub struct ConstPtr {
    pub addr: usize,
    pub stride: usize,
}

/// The explicit parts of a sequence pointer: where the first element lives
/// and how many elements follow.
#[derive(Clone, Copy, PartialEq, Eq, Structural, Debug)]
pub struct FatPtr {
    pub data: ConstPtr,
    pub len: usize,
}

/// A pointer to a contiguous sequence of elements. Its two words are opaque;
/// they are taken apart and put together through [`Repr`].
#[derive(Clone, Copy, Debug)]
pub struct SlicePtr {
    words: [usize; 2],
    stride: usize,
    mutable: bool,
}

/// Two machine words that are read either as a sequence pointer, as a mutable
/// sequence pointer, or as the explicit pair of base pointer and length.
/// Nothing records which reading was written last: reading another one than
/// was written is the intended way to convert between them.
#[derive(Clone, Copy, Debug)]
pub struct Repr {
    words: [usize; 2],
    stride: usize,
}

impl View for SlicePtr {
    type V = FatPtr;

    closed spec fn view(&self) -> FatPtr {
        FatPtr { data: ConstPtr { addr: self.words[0], stride: self.stride }, len: self.words[1] }
    }
}

impl View for Repr {
    type V = FatPtr;

    closed spec fn view(&self) -> FatPtr {
        FatPtr { data: ConstPtr { addr: self.words[0], stride: self.stride }, len: self.words[1] }
    }
}

impl Repr {
    /// Writes the words of a sequence pointer.
    pub fn from_rust(rust: SlicePtr) -> (r: Repr)
        ensures
            r@ == rust@,
    {
        Repr { words: rust.words, stride: rust.stride }
    }

    /// Writes the words of a base pointer and a length.
    pub fn from_raw(raw: FatPtr) -> (r: Repr)
        ensures
            r@ == raw,
    {
        Repr { words: [raw.data.addr, raw.len], stride: raw.data.stride }
    }

    /// Reads the two words as a sequence pointer.
    pub fn rust(self) -> (p: SlicePtr)
        ensures
            p == SlicePtr::from_parts(self@),
            p@ == self@,
            !p.is_mut(),
    {
        let p = SlicePtr { words: self.words, stride: self.stride, mutable: false };
        assert(p.words =~= SlicePtr::from_parts(self@).words);
        p
    }

    /// Reads the two words as a mutable sequence pointer.
    pub fn rust_mut(self) -> (p: SlicePtr)
        ensures
            p@ == self@,
            p.is_mut(),
    {
        SlicePtr { words: self.words, stride: self.stride, mutable: true }
    }

    /// Reads the two words as a base pointer and a length.
    pub fn raw(self) -> (f: FatPtr)
        ensures
            f == self@,
    {
        FatPtr {
            data: ConstPtr { addr: self.words[0], stride: self.stride },
            len: self.words[1],
        }
    }
}

impl SlicePtr {
    /// The immutable sequence pointer made of the given parts.
    pub closed spec fn from_parts(parts: FatPtr) -> SlicePtr {
        SlicePtr { words: [parts.data.addr, parts.len], stride: parts.data.stride, mutable: false }
    }

    /// Whether writes are allowed through this pointer.
    pub closed spec fn is_mut(self) -> bool {
        self.mutable
    }

    /// Taking a pointer apart gives back the parts it was made of, and the
    /// pointer allows no writes.
    pub broadcast proof fn lemma_from_parts(parts: FatPtr)
        ensures
            (#[trigger] SlicePtr::from_parts(parts))@ == parts,
            !SlicePtr::from_parts(parts).is_mut(),
    {
    }

    /// Number of elements in the sequence.
    pub fn len(self) -> (n: usize)
        ensures
            n == self@.len,
    {
        let a = Repr::from_rust(self).raw();
        a.len
    }

    /// Pointer to the first element.
    pub fn as_ptr(self) -> (p: ConstPtr)
        ensures
            p == self@.data,
    {
        Repr::from_rust(self).raw().data
    }
}

/// The address `count` elements away from `dst`, in units of the pointee's size.
pub open spec fn offset_addr(dst: ConstPtr, count: int) -> int {
    dst.addr + count * dst.stride
}

/// Pointer arithmetic: advances `dst` by `count` elements of the pointee's
/// size. The result must be an address of the machine.
pub fn offset(dst: ConstPtr, count: isize) -> (r: ConstPtr)
    requires
        0 <= offset_addr(dst, count as int) <= usize::MAX,
    ensures
        r.addr == offset_addr(dst, count as int),
        r.stride == dst.stride,
{
    let steps: i128 = count as i128;
    let size: i128 = dst.stride as i128;
    assert(-0x8000_0000_0000_0000 * 0x1_0000_0000_0000_0000 <= steps * size
        <= 0x8000_0000_0000_0000 * 0x1_0000_0000_0000_0000) by (nonlinear_arith)
        requires
            -0x8000_0000_0000_0000 <= steps <= 0x8000_0000_0000_0000,
            0 <= size <= 0x1_0000_0000_0000_0000,
    ;
    let target: i128 = dst.addr as i128 + steps * size;
    ConstPtr { addr: target as usize, stride: dst.stride }
}

impl ConstPtr {
    /// Advances the pointer by `count` elements, forwards or backwards.
    pub fn offset(self, count: isize) -> (r: ConstPtr)
        requires
            0 <= offset_addr(self, count as int) <= usize::MAX,
        ensures
            r.addr == offset_addr(self, count as int),
            r.stride == self.stride,
    {
        self::offset(self, count)
    }

    /// Advances the pointer by `count` elements forwards.
    pub fn add(self, count: usize) -> (r: Self)
        requires
            count <= isize::MAX,
            offset_addr(self, count as int) <= usize::MAX,
        ensures
            r.addr == offset_addr(self, count as int),
            r.stride == self.stride,
    {
        assert(0 <= count * self.stride) by (nonlinear_arith)
            requires
                0 <= count,
                0 <= self.stride,
        ;
        self.offset(count as isize)
    }

    /// A thin pointer is its own pointer to the first element.
    pub fn as_ptr(self) -> (p: ConstPtr)
        ensures
            p == self,
    {
        self
    }
}

/// Puts a sequence pointer together from a pointer to its first element and
/// an element count. Nothing is checked: the parts are written as they are.
pub fn slice_from_raw_parts(data: ConstPtr, len: usize) -> (p: SlicePtr)
    ensures
        p == SlicePtr::from_parts(FatPtr { data, len }),
        p@ == (FatPtr { data, len }),
        !p.is_mut(),
{
    Repr::from_raw(FatPtr { data, len }).rust()
}

} // verus!
