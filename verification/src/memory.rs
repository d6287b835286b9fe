//! Storage of a sequence of elements at a known address.

use crate::index::{Range, SliceIndex};
use crate::ptr::{slice_from_raw_parts, ConstPtr, FatPtr, SlicePtr};
use vstd::arithmetic::div_mod::{lemma_div_multiples_vanish, lemma_fundamental_div_mod, lemma_mod_multiples_basic};
use vstd::prelude::*;

verus! {

/// A contiguous sequence of elements that lives at a known address: element
/// `k` occupies the `stride` bytes that start at `base + k * stride`.
pub struct Storage<T> {
    base: usize,
    stride: usize,
    cells: Vec<T>,
}

impl<T> View for Storage<T> {
    type V = Seq<T>;

    closed spec fn view(&self) -> Seq<T> {
        self.cells@
    }
}

impl<T> Storage<T> {
    /// Address of the first element.
    pub closed spec fn base(&self) -> usize {
        self.base
    }

    /// Size in bytes of one element.
    pub closed spec fn stride(&self) -> usize {
        self.stride
    }

    /// Elements have a size, and the storage ends within the machine's addresses.
    pub closed spec fn wf(&self) -> bool {
        &&& self.stride > 0
        &&& self.cells@.len() * self.stride <= isize::MAX
        &&& self.base + self.cells@.len() * self.stride <= usize::MAX
    }

    /// The sequence pointer that spans the whole storage.
    pub open spec fn span(&self) -> SlicePtr {
        SlicePtr::from_parts(
            FatPtr {
                data: ConstPtr { addr: self.base(), stride: self.stride() },
                len: self@.len() as usize,
            },
        )
    }

    /// Address of the element at position `k`.
    pub open spec fn cell_addr(&self, k: int) -> int {
        self.base() + k * self.stride()
    }

    /// Whether `p` points at the start of an element of this storage.
    pub open spec fn holds(&self, p: ConstPtr) -> bool {
        &&& p.stride == self.stride()
        &&& p.addr >= self.base()
        &&& (p.addr - self.base()) % (self.stride() as int) == 0
        &&& (p.addr - self.base()) / (self.stride() as int) < self@.len()
    }

    /// Position within the storage of the element that `p` points at.
    pub open spec fn slot(&self, p: ConstPtr) -> int {
        (p.addr - self.base()) / (self.stride() as int)
    }

    /// Places `cells` at address `base`. Fails when elements would have no
    /// size or the storage would not fit into the machine's addresses.
    pub fn new(base: usize, stride: usize, cells: Vec<T>) -> (r: Option<Storage<T>>)
        ensures
            r is Some <==> (stride > 0 && cells@.len() * stride <= isize::MAX && base + cells@.len()
                * stride <= usize::MAX),
            r matches Some(s) ==> s.wf() && s.base() == base && s.stride() == stride && s@
                == cells@,
    {
        if stride == 0 {
            return None;
        }
        match cells.len().checked_mul(stride) {
            None => None,
            Some(bytes) => {
                if bytes > isize::MAX as usize {
                    return None;
                }
                match base.checked_add(bytes) {
                    None => None,
                    Some(_) => Some(Storage { base, stride, cells }),
                }
            },
        }
    }

    /// Number of elements.
    pub fn len(&self) -> (n: usize)
        ensures
            n == self@.len(),
    {
        self.cells.len()
    }

    /// The sequence pointer that spans the whole storage.
    pub fn as_slice(&self) -> (p: SlicePtr)
        ensures
            p == self.span(),
            p@ == (FatPtr {
                data: ConstPtr { addr: self.base(), stride: self.stride() },
                len: self@.len() as usize,
            }),
    {
        slice_from_raw_parts(ConstPtr { addr: self.base, stride: self.stride }, self.cells.len())
    }

    /// Reads the element that `p` points at, if `p` points at one.
    pub fn load(&self, p: ConstPtr) -> (r: Option<&T>)
        requires
            self.wf(),
        ensures
            r == (if self.holds(p) {
                Some(&self@[self.slot(p)])
            } else {
                None
            }),
    {
        if p.stride != self.stride || p.addr < self.base {
            return None;
        }
        let delta = p.addr - self.base;
        if delta % self.stride != 0 {
            return None;
        }
        let k = delta / self.stride;
        if k < self.cells.len() {
            Some(&self.cells[k])
        } else {
            None
        }
    }

    /// A pointer is held exactly when it is the address of one of the elements.
    pub proof fn lemma_holds(&self, p: ConstPtr)
        requires
            self.wf(),
        ensures
            self.holds(p) <==> (p.stride == self.stride() && exists|k: int|
                0 <= k < self@.len() && p.addr == #[trigger] self.cell_addr(k)),
    {
        let stride = self.stride as int;
        let delta = p.addr - self.base;
        if self.holds(p) {
            let k = delta / stride;
            lemma_fundamental_div_mod(delta, stride);
            assert(stride * k == k * stride) by (nonlinear_arith);
            assert(0 <= k < self@.len() && p.addr == self.cell_addr(k));
        }
        if p.stride == self.stride() && exists|k: int|
            0 <= k < self@.len() && p.addr == #[trigger] self.cell_addr(k) {
            let k = choose|k: int| 0 <= k < self@.len() && p.addr == #[trigger] self.cell_addr(k);
            assert(delta == k * stride);
            assert(k * stride >= 0) by (nonlinear_arith)
                requires
                    k >= 0,
                    stride > 0,
            ;
            lemma_div_multiples_vanish(k, stride);
            lemma_mod_multiples_basic(k, stride);
        }
    }

    /// Indexing the whole storage by a scalar below its length leads to the
    /// element at that position.
    pub proof fn lemma_index_reads(&self, i: usize)
        requires
            self.wf(),
            i < self@.len(),
        ensures
            i.checks(&self.span()),
            i.reachable(&self.span()),
            self.holds(i.place(&self.span())),
            self.slot(i.place(&self.span())) == i,
    {
        broadcast use SlicePtr::lemma_from_parts;

        let stride = self.stride as int;
        let n = self.cells@.len() as int;
        assert(i * stride <= n * stride && i * stride >= 0 && i <= i * stride && n <= n * stride)
            by (nonlinear_arith)
            requires
                0 <= i < n,
                stride > 0,
        ;
        let p = i.place(&self.span());
        assert(p.addr == self.base + i * stride);
        lemma_div_multiples_vanish(i as int, stride);
        lemma_mod_multiples_basic(i as int, stride);
    }

    /// A range within the storage selects a sequence whose element `k` is
    /// the element `start + k` of the storage.
    pub proof fn lemma_range_reads(&self, range: Range<usize>, k: usize)
        requires
            self.wf(),
            range.start <= range.end <= self@.len(),
            k < range.end - range.start,
        ensures
            range.reachable(&self.span()),
            range.place(&self.span())@.len == range.end - range.start,
            k.reachable(&range.place(&self.span())),
            self.holds(k.place(&range.place(&self.span()))),
            self.slot(k.place(&range.place(&self.span()))) == range.start + k,
    {
        broadcast use SlicePtr::lemma_from_parts;

        let stride = self.stride as int;
        let n = self.cells@.len() as int;
        let s = range.start as int;
        assert(s * stride <= n * stride && s * stride >= 0 && s <= s * stride && n <= n * stride)
            by (nonlinear_arith)
            requires
                0 <= s <= n,
                stride > 0,
        ;
        let j = (range.start + k) as usize;
        self.lemma_index_reads(j);
        crate::index::lemma_range_aliases(self.span(), range, k);
    }
}

} // verus!
