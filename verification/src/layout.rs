//! Sizes, alignments and field offsets of types, and the array lengths that
//! are written as the size of a type.

use crate::types::{AdtKind, Prim, Ty, Type};
use vstd::arithmetic::div_mod::{
    lemma_fundamental_div_mod, lemma_mod_multiples_basic, lemma_small_mod,
};
use vstd::prelude::*;

verus! {

/// Size and alignment of a type, in bytes.
#[derive(Clone, Copy, PartialEq, Eq, Structural, Debug)]
pub struct Layout {
    pub size: usize,
    pub align: usize,
}

/// Size in bytes of a machine word: of an address, and of `usize`.
pub open spec fn word() -> nat {
    (usize::BITS / 8) as nat
}

/// Size of a primitive type.
pub open spec fn prim_size(p: Prim) -> nat {
    match p {
        Prim::Unit => 0,
        Prim::Bool | Prim::U8 | Prim::I8 => 1,
        Prim::U16 | Prim::I16 => 2,
        Prim::U32 | Prim::I32 => 4,
        Prim::U64 | Prim::I64 => 8,
        Prim::Usize | Prim::Isize => word(),
        Prim::Str => 2 * word(),
    }
}

/// Alignment of a primitive type: its size, but for the unit type, which is
/// aligned anywhere, and for a string reference, which is aligned as a word.
pub open spec fn prim_align(p: Prim) -> nat {
    match p {
        Prim::Unit => 1,
        Prim::Str => word(),
        _ => prim_size(p),
    }
}

/// The fewest bytes to skip from `offset` to reach a multiple of `align`.
pub open spec fn padding(offset: nat, align: nat) -> nat {
    if align == 0 || offset % align == 0 {
        0
    } else {
        (align - offset % align) as nat
    }
}

/// The first multiple of `align` at or after `offset`.
pub open spec fn align_up(offset: nat, align: nat) -> nat {
    offset + padding(offset, align)
}

/// Offset at which the first `k` fields of a record end, when each field is
/// placed at the first offset after its predecessor that its alignment allows.
pub open spec fn record_end(sizes: Seq<nat>, aligns: Seq<nat>, k: nat) -> nat
    decreases k,
{
    if k == 0 {
        0
    } else {
        align_up(record_end(sizes, aligns, (k - 1) as nat), aligns[k - 1]) + sizes[k - 1]
    }
}

/// Sum of the first `k` sizes.
pub open spec fn sum_upto(sizes: Seq<nat>, k: nat) -> nat
    decreases k,
{
    if k == 0 {
        0
    } else {
        sum_upto(sizes, (k - 1) as nat) + sizes[k - 1]
    }
}

/// Bytes skipped in front of the first `k` fields of a record.
pub open spec fn padding_upto(sizes: Seq<nat>, aligns: Seq<nat>, k: nat) -> nat
    decreases k,
{
    if k == 0 {
        0
    } else {
        padding_upto(sizes, aligns, (k - 1) as nat) + padding(
            record_end(sizes, aligns, (k - 1) as nat),
            aligns[k - 1],
        )
    }
}

/// The largest of `floor` and the first `k` numbers.
pub open spec fn max_upto(xs: Seq<nat>, k: nat, floor: nat) -> nat
    decreases k,
{
    if k == 0 {
        floor
    } else {
        let rest = max_upto(xs, (k - 1) as nat, floor);
        if xs[k - 1] > rest {
            xs[k - 1]
        } else {
            rest
        }
    }
}

/// Alignment of an aggregate: the strictest alignment among its fields.
pub open spec fn aggregate_align(aligns: Seq<nat>) -> nat {
    max_upto(aligns, aligns.len(), 1)
}

/// Size of an aggregate whose fields have the given sizes and alignments.
/// The fields of a struct follow one another, each at the first offset its
/// alignment allows. The fields of a union all start at offset zero. An enum
/// is a one-byte tag followed by the overlapping payloads of its variants.
/// In each case the size is rounded up to the aggregate's alignment.
pub open spec fn aggregate_size(kind: AdtKind, sizes: Seq<nat>, aligns: Seq<nat>) -> nat {
    let align = aggregate_align(aligns);
    match kind {
        AdtKind::Struct => align_up(record_end(sizes, aligns, sizes.len()), align),
        AdtKind::Union => align_up(max_upto(sizes, sizes.len(), 0), align),
        AdtKind::Enum => align_up(align_up(1, align) + max_upto(sizes, sizes.len(), 0), align),
    }
}

/// Offset of the field at position `k` of an aggregate from the start of
/// the aggregate: after the fields before it in a struct, at the start in a
/// union, after the tag in an enum.
pub open spec fn field_offset(kind: AdtKind, sizes: Seq<nat>, aligns: Seq<nat>, k: nat) -> nat {
    match kind {
        AdtKind::Struct => align_up(record_end(sizes, aligns, k), aligns[k as int]),
        AdtKind::Union => 0,
        AdtKind::Enum => align_up(1, aggregate_align(aligns)),
    }
}

impl Ty {
    /// Alignment in bytes.
    pub open spec fn align(self) -> nat
        decreases self, 1nat,
    {
        match self {
            Ty::Prim(p) => prim_align(p),
            Ty::Array(elem, _) => elem.align(),
            Ty::ArrayOfSize(elem, _) => elem.align(),
            Ty::Slice(elem) => elem.align(),
            Ty::Ptr(_, _) => word(),
            Ty::Adt(_, _, fields) => aggregate_align(Ty::aligns_of(fields)),
            Ty::Param(_) => 1,
        }
    }

    /// Alignments of a list of types.
    pub open spec fn aligns_of(fields: Seq<Ty>) -> Seq<nat>
        decreases fields, 0nat,
    {
        Seq::new(
            fields.len(),
            |i: int|
                if 0 <= i < fields.len() {
                    fields[i].align()
                } else {
                    1
                },
        )
    }

    /// Size in bytes. A sequence of unknown length and a generic parameter
    /// have no size of their own; zero stands for it.
    pub open spec fn size(self) -> nat
        decreases self, 1nat,
    {
        match self {
            Ty::Prim(p) => prim_size(p),
            Ty::Array(elem, len) => (len as nat) * elem.size(),
            Ty::ArrayOfSize(elem, measured) => measured.size() * elem.size(),
            Ty::Slice(_) => 0,
            Ty::Ptr(target, _) => if *target is Slice {
                2 * word()
            } else {
                word()
            },
            Ty::Adt(kind, _, fields) => aggregate_size(
                kind,
                Ty::sizes_of(fields),
                Ty::aligns_of(fields),
            ),
            Ty::Param(_) => 0,
        }
    }

    /// Sizes of a list of types.
    pub open spec fn sizes_of(fields: Seq<Ty>) -> Seq<nat>
        decreases fields, 0nat,
    {
        Seq::new(
            fields.len(),
            |i: int|
                if 0 <= i < fields.len() {
                    fields[i].size()
                } else {
                    0
                },
        )
    }

    /// Whether values of the type have a size that the machine can address:
    /// the type is free of parameters, holds a sequence of unknown length
    /// only behind a pointer, and neither it nor any of its parts is larger
    /// than the address space.
    pub open spec fn has_layout(self) -> bool
        decreases self,
    {
        match self {
            Ty::Prim(_) => true,
            Ty::Array(elem, len) => elem.has_layout() && len * elem.size() <= usize::MAX,
            Ty::ArrayOfSize(elem, measured) => elem.has_layout() && measured.has_layout()
                && measured.size() * elem.size() <= usize::MAX,
            Ty::Slice(_) => false,
            Ty::Ptr(target, _) => target.concrete(),
            Ty::Adt(_, _, fields) => (forall|i: int|
                0 <= i < fields.len() ==> (#[trigger] fields[i]).has_layout()) && self.size()
                <= usize::MAX,
            Ty::Param(_) => false,
        }
    }

    /// The layout of the type, where it has one.
    pub open spec fn layout(self) -> Option<Layout> {
        if self.has_layout() {
            Some(Layout { size: self.size() as usize, align: self.align() as usize })
        } else {
            None
        }
    }

    /// Offset of the field at position `k` of an aggregate that has a
    /// layout; nothing for other types and for a position that is no field.
    pub open spec fn offset_of(self, k: nat) -> Option<usize> {
        match self {
            Ty::Adt(kind, _, fields) => if k < fields.len() && self.has_layout() {
                Some(field_offset(kind, Ty::sizes_of(fields), Ty::aligns_of(fields), k) as usize)
            } else {
                None
            },
            _ => None,
        }
    }

    /// Whether every array length in the type is written as a number.
    pub open spec fn explicit(self) -> bool
        decreases self,
    {
        match self {
            Ty::Prim(_) => true,
            Ty::Array(elem, _) => elem.explicit(),
            Ty::ArrayOfSize(_, _) => false,
            Ty::Slice(elem) => elem.explicit(),
            Ty::Ptr(target, _) => target.explicit(),
            Ty::Adt(_, _, fields) => forall|i: int|
                0 <= i < fields.len() ==> (#[trigger] fields[i]).explicit(),
            Ty::Param(_) => true,
        }
    }

    /// Whether every array length in the type can be evaluated: each type
    /// whose size is a length has a layout.
    pub open spec fn resolvable(self) -> bool
        decreases self,
    {
        match self {
            Ty::Prim(_) => true,
            Ty::Array(elem, _) => elem.resolvable(),
            Ty::ArrayOfSize(elem, measured) => elem.resolvable() && measured.has_layout(),
            Ty::Slice(elem) => elem.resolvable(),
            Ty::Ptr(target, _) => target.resolvable(),
            Ty::Adt(_, _, fields) => forall|i: int|
                0 <= i < fields.len() ==> (#[trigger] fields[i]).resolvable(),
            Ty::Param(_) => true,
        }
    }

    /// The type with every array length that is written as the size of a
    /// type replaced by the number that it evaluates to.
    pub open spec fn resolved(self) -> Ty
        decreases self,
    {
        match self {
            Ty::Prim(_) => self,
            Ty::Array(elem, len) => Ty::Array(Box::new(elem.resolved()), len),
            Ty::ArrayOfSize(elem, measured) => Ty::Array(
                Box::new(elem.resolved()),
                measured.size() as usize,
            ),
            Ty::Slice(elem) => Ty::Slice(Box::new(elem.resolved())),
            Ty::Ptr(target, mutable) => Ty::Ptr(Box::new(target.resolved()), mutable),
            Ty::Adt(kind, name, fields) => Ty::Adt(
                kind,
                name,
                Seq::new(
                    fields.len(),
                    |i: int|
                        if 0 <= i < fields.len() {
                            fields[i].resolved()
                        } else {
                            self
                        },
                ),
            ),
            Ty::Param(_) => self,
        }
    }

    /// Number of elements of an array type, with a length that is written as
    /// the size of a type evaluated.
    pub open spec fn array_len(self) -> Option<usize> {
        match self {
            Ty::Array(_, len) => Some(len),
            Ty::ArrayOfSize(_, measured) => if measured.has_layout() {
                Some(measured.size() as usize)
            } else {
                None
            },
            _ => None,
        }
    }
}

/// Sizes in a list of layouts.
pub open spec fn layout_sizes(layouts: Seq<Layout>) -> Seq<nat> {
    Seq::new(layouts.len(), |i: int| layouts[i].size as nat)
}

/// Alignments in a list of layouts.
pub open spec fn layout_aligns(layouts: Seq<Layout>) -> Seq<nat> {
    Seq::new(layouts.len(), |i: int| layouts[i].align as nat)
}

/// Rounding up skips fewer bytes than the alignment and ends on a multiple of it.
pub proof fn lemma_padding(offset: nat, align: nat)
    requires
        align > 0,
    ensures
        padding(offset, align) < align,
        align_up(offset, align) % align == 0,
        offset % align == 0 ==> align_up(offset, align) == offset,
{
    let r = offset % align;
    if r != 0 {
        let q = offset as int / align as int;
        lemma_fundamental_div_mod(offset as int, align as int);
        assert(offset + (align - r) == (q + 1) * align) by (nonlinear_arith)
            requires
                offset == align * q + r,
        ;
        lemma_mod_multiples_basic(q + 1, align as int);
    }
}

/// A record only grows as fields are added.
pub proof fn lemma_record_end_monotone(sizes: Seq<nat>, aligns: Seq<nat>, i: nat, j: nat)
    requires
        i <= j,
    ensures
        record_end(sizes, aligns, i) <= record_end(sizes, aligns, j),
    decreases j,
{
    if i < j {
        lemma_record_end_monotone(sizes, aligns, i, (j - 1) as nat);
    }
}

/// The largest of the first `k` numbers is at least each of them and at
/// least the floor, and grows with `k`.
pub proof fn lemma_max_upto(xs: Seq<nat>, k: nat, floor: nat)
    ensures
        max_upto(xs, k, floor) >= floor,
        forall|i: int| 0 <= i < k ==> max_upto(xs, k, floor) >= xs[i],
    decreases k,
{
    if k > 0 {
        lemma_max_upto(xs, (k - 1) as nat, floor);
    }
}

/// Every type is aligned to at least one byte.
pub proof fn lemma_align_positive(ty: Ty)
    ensures
        ty.align() >= 1,
    decreases ty,
{
    match ty {
        Ty::Prim(_) => {},
        Ty::Array(elem, _) => lemma_align_positive(*elem),
        Ty::ArrayOfSize(elem, _) => lemma_align_positive(*elem),
        Ty::Slice(elem) => lemma_align_positive(*elem),
        Ty::Ptr(_, _) => {},
        Ty::Adt(_, _, fields) => {
            let aligns = Ty::aligns_of(fields);
            lemma_max_upto(aligns, aligns.len(), 1);
        },
        Ty::Param(_) => {},
    }
}

/// The size of every type is a multiple of its alignment, so that the
/// elements of an array follow one another without padding.
pub proof fn lemma_size_is_aligned(ty: Ty)
    ensures
        ty.align() >= 1,
        ty.size() % ty.align() == 0,
    decreases ty,
{
    lemma_align_positive(ty);
    match ty {
        Ty::Prim(p) => {
            lemma_mod_multiples_basic(2, word() as int);
            if prim_size(p) > 0 {
                lemma_mod_multiples_basic(1, prim_size(p) as int);
            }
        },
        Ty::Array(elem, len) => {
            lemma_size_is_aligned(*elem);
            lemma_multiple_of_aligned(len as nat, elem.size(), elem.align());
        },
        Ty::ArrayOfSize(elem, measured) => {
            lemma_size_is_aligned(*elem);
            lemma_multiple_of_aligned(measured.size(), elem.size(), elem.align());
        },
        Ty::Slice(_) => {
            lemma_small_mod(0, ty.align());
        },
        Ty::Ptr(_, _) => {
            lemma_mod_multiples_basic(1, word() as int);
            lemma_mod_multiples_basic(2, word() as int);
        },
        Ty::Adt(kind, _, fields) => {
            let sizes = Ty::sizes_of(fields);
            let aligns = Ty::aligns_of(fields);
            let align = aggregate_align(aligns);
            lemma_padding(record_end(sizes, aligns, sizes.len()), align);
            lemma_padding(max_upto(sizes, sizes.len(), 0), align);
            lemma_padding(align_up(1, align) + max_upto(sizes, sizes.len(), 0), align);
        },
        Ty::Param(_) => {},
    }
}

/// A multiple of a multiple of `align` is a multiple of `align`.
pub proof fn lemma_multiple_of_aligned(count: nat, size: nat, align: nat)
    requires
        align >= 1,
        size % align == 0,
    ensures
        (count * size) % align == 0,
{
    let q = size as int / align as int;
    lemma_fundamental_div_mod(size as int, align as int);
    assert(count * size == (count * q) * align) by (nonlinear_arith)
        requires
            size == align * q,
    ;
    lemma_mod_multiples_basic(count * q, align as int);
}

/// The end of a record is the sum of the sizes of its fields plus the bytes
/// skipped in front of them.
pub proof fn lemma_record_end_is_sum(sizes: Seq<nat>, aligns: Seq<nat>, k: nat)
    ensures
        record_end(sizes, aligns, k) == sum_upto(sizes, k) + padding_upto(sizes, aligns, k),
    decreases k,
{
    if k > 0 {
        lemma_record_end_is_sum(sizes, aligns, (k - 1) as nat);
    }
}

/// The size of a struct is the sum of the sizes of its fields plus padding:
/// the bytes skipped in front of each field to reach its alignment, and the
/// bytes added after the last field to reach the alignment of the struct.
/// Each of these paddings is smaller than the alignment it serves, and the
/// size is a multiple of the struct's alignment.
pub proof fn lemma_struct_size(name: u32, fields: Seq<Ty>)
    ensures
        ({
            let ty = Ty::Adt(AdtKind::Struct, name, fields);
            let sizes = Ty::sizes_of(fields);
            let aligns = Ty::aligns_of(fields);
            let end = record_end(sizes, aligns, fields.len());
            &&& ty.size() == sum_upto(sizes, fields.len()) + padding_upto(
                sizes,
                aligns,
                fields.len(),
            ) + padding(end, ty.align())
            &&& padding(end, ty.align()) < ty.align()
            &&& ty.size() % ty.align() == 0
            &&& forall|i: int|
                0 <= i < fields.len() ==> {
                    &&& sizes[i] == fields[i].size()
                    &&& aligns[i] == fields[i].align()
                    &&& padding(#[trigger] record_end(sizes, aligns, i as nat), aligns[i])
                        < aligns[i]
                }
        }),
{
    let ty = Ty::Adt(AdtKind::Struct, name, fields);
    let sizes = Ty::sizes_of(fields);
    let aligns = Ty::aligns_of(fields);
    let end = record_end(sizes, aligns, fields.len());
    lemma_record_end_is_sum(sizes, aligns, fields.len());
    lemma_align_positive(ty);
    lemma_padding(end, ty.align());
    assert forall|i: int| 0 <= i < fields.len() implies padding(
        #[trigger] record_end(sizes, aligns, i as nat),
        aligns[i],
    ) < aligns[i] by {
        lemma_align_positive(fields[i]);
        lemma_padding(record_end(sizes, aligns, i as nat), aligns[i]);
    }
}

/// The fields of a struct lie within the struct, each at a multiple of its
/// alignment, and a field ends before the fields after it start.
pub proof fn lemma_struct_fields(name: u32, fields: Seq<Ty>, j: int, k: int)
    requires
        0 <= j <= k < fields.len(),
    ensures
        ({
            let ty = Ty::Adt(AdtKind::Struct, name, fields);
            let sizes = Ty::sizes_of(fields);
            let aligns = Ty::aligns_of(fields);
            let at_j = field_offset(AdtKind::Struct, sizes, aligns, j as nat);
            let at_k = field_offset(AdtKind::Struct, sizes, aligns, k as nat);
            &&& at_k % fields[k].align() == 0
            &&& at_k + fields[k].size() <= ty.size()
            &&& j < k ==> at_j + fields[j].size() <= at_k
        }),
{
    let sizes = Ty::sizes_of(fields);
    let aligns = Ty::aligns_of(fields);
    lemma_align_positive(fields[k]);
    lemma_padding(record_end(sizes, aligns, k as nat), aligns[k]);
    lemma_record_end_monotone(sizes, aligns, (k + 1) as nat, fields.len());
    if j < k {
        lemma_record_end_monotone(sizes, aligns, (j + 1) as nat, k as nat);
    }
}

/// A type with a layout is free of generic parameters and no larger than
/// the address space.
pub proof fn lemma_layout_is_concrete(ty: Ty)
    requires
        ty.has_layout(),
    ensures
        ty.concrete(),
        ty.size() <= usize::MAX,
    decreases ty,
{
    match ty {
        Ty::Prim(_) => {},
        Ty::Array(elem, _) => lemma_layout_is_concrete(*elem),
        Ty::ArrayOfSize(elem, measured) => {
            lemma_layout_is_concrete(*elem);
            lemma_layout_is_concrete(*measured);
        },
        Ty::Adt(_, _, fields) => {
            assert forall|i: int| 0 <= i < fields.len() implies (#[trigger] fields[i]).concrete() by {
                lemma_layout_is_concrete(fields[i]);
            }
        },
        _ => {},
    }
}

/// Evaluating the array lengths of a type leaves every length written as a
/// number and changes nothing else: not the size, not the alignment, not
/// whether the type is concrete or has a layout.
pub proof fn lemma_resolved(ty: Ty)
    requires
        ty.resolvable(),
    ensures
        ty.resolved().explicit(),
        ty.resolved().size() == ty.size(),
        ty.resolved().align() == ty.align(),
        ty.resolved().concrete() == ty.concrete(),
        ty.resolved().has_layout() == ty.has_layout(),
        ty.resolved() is Slice == ty is Slice,
    decreases ty,
{
    match ty {
        Ty::Prim(_) => {},
        Ty::Array(elem, _) => lemma_resolved(*elem),
        Ty::ArrayOfSize(elem, measured) => {
            lemma_resolved(*elem);
            lemma_layout_is_concrete(*measured);
        },
        Ty::Slice(elem) => lemma_resolved(*elem),
        Ty::Ptr(target, _) => lemma_resolved(*target),
        Ty::Adt(kind, name, fields) => {
            let out = ty.resolved()->Adt_2;
            assert forall|i: int| 0 <= i < fields.len() implies {
                &&& (#[trigger] out[i]).explicit()
                &&& out[i].size() == fields[i].size()
                &&& out[i].align() == fields[i].align()
                &&& out[i].concrete() == fields[i].concrete()
                &&& out[i].has_layout() == fields[i].has_layout()
            } by {
                lemma_resolved(fields[i]);
            }
            assert(Ty::sizes_of(out) =~= Ty::sizes_of(fields));
            assert(Ty::aligns_of(out) =~= Ty::aligns_of(fields));
            if ty.concrete() {
                assert forall|i: int| 0 <= i < out.len() implies (#[trigger] out[i]).concrete() by {
                    assert(fields[i].concrete());
                }
            } else {
                let i = choose|i: int| 0 <= i < fields.len() && !(#[trigger] fields[i]).concrete();
                assert(!out[i].concrete());
            }
            if forall|i: int| 0 <= i < fields.len() ==> (#[trigger] fields[i]).has_layout() {
                assert forall|i: int| 0 <= i < out.len() implies (#[trigger] out[i]).has_layout() by {
                    assert(fields[i].has_layout());
                }
            } else {
                let i = choose|i: int| 0 <= i < fields.len() && !(#[trigger] fields[i]).has_layout();
                assert(!out[i].has_layout());
            }
        },
        Ty::Param(_) => {},
    }
}

/// Size of a machine word.
pub fn word_size() -> (r: usize)
    ensures
        r == word(),
        r == 4 || r == 8,
{
    (usize::BITS / 8) as usize
}

/// Layout of a primitive type.
pub fn prim_layout(p: Prim) -> (r: Layout)
    ensures
        r.size == prim_size(p),
        r.align == prim_align(p),
        r.align >= 1,
{
    let w = word_size();
    match p {
        Prim::Unit => Layout { size: 0, align: 1 },
        Prim::Bool | Prim::U8 | Prim::I8 => Layout { size: 1, align: 1 },
        Prim::U16 | Prim::I16 => Layout { size: 2, align: 2 },
        Prim::U32 | Prim::I32 => Layout { size: 4, align: 4 },
        Prim::U64 | Prim::I64 => Layout { size: 8, align: 8 },
        Prim::Usize | Prim::Isize => Layout { size: w, align: w },
        Prim::Str => Layout { size: 2 * w, align: w },
    }
}

/// The first multiple of `align` at or after `offset`, if the machine can
/// address it.
pub fn round_up(offset: usize, align: usize) -> (r: Option<usize>)
    requires
        align > 0,
    ensures
        r == (if align_up(offset as nat, align as nat) <= usize::MAX {
            Some(align_up(offset as nat, align as nat) as usize)
        } else {
            None
        }),
{
    let rem = offset % align;
    if rem == 0 {
        Some(offset)
    } else {
        offset.checked_add(align - rem)
    }
}

/// Layout of an aggregate from the layouts of its fields, if the machine
/// can address a value of that size.
pub fn aggregate_layout(kind: AdtKind, fields: &Vec<Layout>) -> (r: Option<Layout>)
    requires
        forall|i: int| 0 <= i < fields@.len() ==> (#[trigger] fields@[i]).align >= 1,
    ensures
        r == (if aggregate_size(kind, layout_sizes(fields@), layout_aligns(fields@))
            <= usize::MAX {
            Some(
                Layout {
                    size: aggregate_size(kind, layout_sizes(fields@), layout_aligns(fields@)) as usize,
                    align: aggregate_align(layout_aligns(fields@)) as usize,
                },
            )
        } else {
            None
        }),
{
    let ghost sizes = layout_sizes(fields@);
    let ghost aligns = layout_aligns(fields@);
    proof {
        lemma_aligns_bounded(fields@);
    }
    let n = fields.len();
    let mut align: usize = 1;
    let mut largest: usize = 0;
    let mut i: usize = 0;
    while i < n
        invariant
            n == fields@.len(),
            sizes == layout_sizes(fields@),
            aligns == layout_aligns(fields@),
            i <= n,
            align == max_upto(aligns, i as nat, 1),
            largest == max_upto(sizes, i as nat, 0),
        decreases n - i,
    {
        if fields[i].align > align {
            align = fields[i].align;
        }
        if fields[i].size > largest {
            largest = fields[i].size;
        }
        i = i + 1;
    }
    proof {
        lemma_max_upto(aligns, n as nat, 1);
    }
    match kind {
        AdtKind::Struct => {
            let mut end: usize = 0;
            let mut k: usize = 0;
            while k < n
                invariant
                    n == fields@.len(),
                    sizes == layout_sizes(fields@),
                    aligns == layout_aligns(fields@),
                    forall|i: int| 0 <= i < fields@.len() ==> (#[trigger] fields@[i]).align >= 1,
                    k <= n,
                    end == record_end(sizes, aligns, k as nat),
                    align >= 1,
                    align == aggregate_align(aligns),
                    kind == AdtKind::Struct,
                decreases n - k,
            {
                proof {
                    lemma_record_end_monotone(sizes, aligns, (k + 1) as nat, n as nat);
                    lemma_padding(record_end(sizes, aligns, n as nat), align as nat);
                }
                let start = match round_up(end, fields[k].align) {
                    Some(start) => start,
                    None => {
                        return None;
                    },
                };
                end = match start.checked_add(fields[k].size) {
                    Some(end) => end,
                    None => {
                        return None;
                    },
                };
                k = k + 1;
            }
            match round_up(end, align) {
                Some(size) => Some(Layout { size, align }),
                None => None,
            }
        },
        AdtKind::Union => {
            match round_up(largest, align) {
                Some(size) => Some(Layout { size, align }),
                None => None,
            }
        },
        AdtKind::Enum => {
            proof {
                lemma_padding(1, align as nat);
                lemma_padding(
                    align_up(1, align as nat) + max_upto(sizes, n as nat, 0),
                    align as nat,
                );
            }
            let tag_end = match round_up(1, align) {
                Some(tag_end) => tag_end,
                None => {
                    return None;
                },
            };
            let end = match tag_end.checked_add(largest) {
                Some(end) => end,
                None => {
                    return None;
                },
            };
            match round_up(end, align) {
                Some(size) => Some(Layout { size, align }),
                None => None,
            }
        },
    }
}

/// Layout of a type, if it has one.
pub fn layout_of(ty: &Type) -> (r: Option<Layout>)
    ensures
        r == ty@.layout(),
        r matches Some(l) ==> l.size == ty@.size() && l.align == ty@.align() && l.align >= 1,
    decreases ty,
{
    proof {
        lemma_align_positive(ty@);
    }
    match ty {
        Type::Prim(p) => Some(prim_layout(*p)),
        Type::Array(elem, len) => {
            match layout_of(elem) {
                None => None,
                Some(l) => match len.checked_mul(l.size) {
                    None => None,
                    Some(size) => Some(Layout { size, align: l.align }),
                },
            }
        },
        Type::ArrayOfSize(elem, measured) => {
            match layout_of(elem) {
                None => None,
                Some(l) => match layout_of(measured) {
                    None => None,
                    Some(m) => match m.size.checked_mul(l.size) {
                        None => None,
                        Some(size) => Some(Layout { size, align: l.align }),
                    },
                },
            }
        },
        Type::Slice(_) => None,
        Type::Ptr(target, _) => {
            if !target.is_concrete() {
                return None;
            }
            let w = word_size();
            match **target {
                Type::Slice(_) => Some(Layout { size: 2 * w, align: w }),
                _ => Some(Layout { size: w, align: w }),
            }
        },
        Type::Adt(kind, _, fields) => {
            let mut layouts: Vec<Layout> = Vec::new();
            let mut i: usize = 0;
            while i < fields.len()
                invariant
                    ty is Adt,
                    ty->Adt_2 == *fields,
                    i <= fields.len(),
                    layouts@.len() == i,
                    forall|j: int| 0 <= j < i ==> fields@[j].model().layout() == Some(#[trigger] layouts@[j]),
                    forall|j: int| 0 <= j < i ==> (#[trigger] layouts@[j]).size == fields@[j].model().size(),
                    forall|j: int| 0 <= j < i ==> (#[trigger] layouts@[j]).align == fields@[j].model().align(),
                    forall|j: int| 0 <= j < i ==> (#[trigger] layouts@[j]).align >= 1,
                decreases fields.len() - i,
            {
                match layout_of(&fields[i]) {
                    None => {
                        assert(!ty@->Adt_2[i as int].has_layout());
                        return None;
                    },
                    Some(l) => {
                        layouts.push(l);
                    },
                }
                i = i + 1;
            }
            proof {
                let tys = ty@->Adt_2;
                assert(layout_sizes(layouts@) =~= Ty::sizes_of(tys));
                assert(layout_aligns(layouts@) =~= Ty::aligns_of(tys));
                assert forall|j: int| 0 <= j < tys.len() implies (#[trigger] tys[j]).has_layout() by {
                    assert(layouts@[j].align >= 1);
                }
                lemma_aligns_bounded(layouts@);
            }
            aggregate_layout(*kind, &layouts)
        },
        Type::Param(_) => None,
    }
}

/// The strictest alignment in a list of layouts is the alignment of one of
/// them, or one, and so fits a machine word.
pub proof fn lemma_aligns_bounded(layouts: Seq<Layout>)
    ensures
        aggregate_align(layout_aligns(layouts)) <= usize::MAX,
{
    lemma_max_upto_is_member(layout_aligns(layouts), layouts.len(), 1);
}

/// The largest of the first `k` numbers is one of them, or the floor.
pub proof fn lemma_max_upto_is_member(xs: Seq<nat>, k: nat, floor: nat)
    ensures
        max_upto(xs, k, floor) == floor || exists|i: int|
            0 <= i < k && xs[i] == max_upto(xs, k, floor),
    decreases k,
{
    if k > 0 {
        lemma_max_upto_is_member(xs, (k - 1) as nat, floor);
    }
}

/// Size of a type in bytes, if it has one.
pub fn size_of(ty: &Type) -> (r: Option<usize>)
    ensures
        r == (if ty@.has_layout() {
            Some(ty@.size() as usize)
        } else {
            None
        }),
{
    match layout_of(ty) {
        Some(l) => Some(l.size),
        None => None,
    }
}

/// Alignment of a type in bytes, if it has a layout.
pub fn align_of(ty: &Type) -> (r: Option<usize>)
    ensures
        r == (if ty@.has_layout() {
            Some(ty@.align() as usize)
        } else {
            None
        }),
{
    match layout_of(ty) {
        Some(l) => Some(l.align),
        None => None,
    }
}

/// Offset of the field at position `k` of an aggregate from the start of
/// the aggregate. Nothing for a type that is no aggregate or has no layout,
/// and for a position that is no field.
pub fn offset_of(ty: &Type, k: usize) -> (r: Option<usize>)
    ensures
        r == ty@.offset_of(k as nat),
        r matches Some(at) ==> ty@ matches Ty::Adt(kind, _, fields) && at == field_offset(
            kind,
            Ty::sizes_of(fields),
            Ty::aligns_of(fields),
            k as nat,
        ),
{
    let whole = match layout_of(ty) {
        Some(l) => l,
        None => {
            return None;
        },
    };
    match ty {
        Type::Adt(kind, _, fields) => {
            if k >= fields.len() {
                return None;
            }
            let ghost tys = ty@->Adt_2;
            let ghost sizes = Ty::sizes_of(tys);
            let ghost aligns = Ty::aligns_of(tys);
            proof {
                lemma_align_positive(ty@);
                lemma_padding(1, whole.align as nat);
                lemma_padding(
                    align_up(1, whole.align as nat) + max_upto(sizes, sizes.len(), 0),
                    whole.align as nat,
                );
            }
            match kind {
                AdtKind::Union => Some(0),
                AdtKind::Enum => round_up(1, whole.align),
                AdtKind::Struct => {
                    let mut end: usize = 0;
                    let mut i: usize = 0;
                    while i < k
                        invariant
                            ty is Adt,
                            ty->Adt_2 == *fields,
                            ty@.has_layout(),
                            ty@ is Adt,
                            ty@->Adt_0 == AdtKind::Struct,
                            tys == ty@->Adt_2,
                            sizes == Ty::sizes_of(tys),
                            aligns == Ty::aligns_of(tys),
                            i <= k < fields.len(),
                            end == record_end(sizes, aligns, i as nat),
                        decreases k - i,
                    {
                        proof {
                            assert(tys[i as int].has_layout());
                            lemma_align_positive(ty@);
                            lemma_padding(record_end(sizes, aligns, tys.len()), ty@.align());
                            lemma_record_end_monotone(sizes, aligns, (i + 1) as nat, tys.len());
                        }
                        let l = layout_of(&fields[i]).unwrap();
                        let start = round_up(end, l.align).unwrap();
                        end = start + l.size;
                        i = i + 1;
                    }
                    proof {
                        assert(tys[k as int].has_layout());
                        lemma_padding(record_end(sizes, aligns, tys.len()), ty@.align());
                        lemma_record_end_monotone(sizes, aligns, (k + 1) as nat, tys.len());
                    }
                    let l = layout_of(&fields[k]).unwrap();
                    round_up(end, l.align)
                },
            }
        },
        _ => None,
    }
}

/// Evaluates the array lengths of a type: every length that is written as
/// the size of a type is replaced by that size. Nothing if one of them
/// cannot be evaluated.
pub fn resolve_lengths(ty: &Type) -> (r: Option<Type>)
    ensures
        match r {
            Some(out) => ty@.resolvable() && out@ == ty@.resolved(),
            None => !ty@.resolvable(),
        },
    decreases ty,
{
    match ty {
        Type::Prim(p) => Some(Type::Prim(*p)),
        Type::Array(elem, len) => match resolve_lengths(elem) {
            Some(e) => Some(Type::Array(Box::new(e), *len)),
            None => None,
        },
        Type::ArrayOfSize(elem, measured) => match resolve_lengths(elem) {
            Some(e) => match size_of(measured) {
                Some(len) => Some(Type::Array(Box::new(e), len)),
                None => None,
            },
            None => None,
        },
        Type::Slice(elem) => match resolve_lengths(elem) {
            Some(e) => Some(Type::Slice(Box::new(e))),
            None => None,
        },
        Type::Ptr(target, mutable) => match resolve_lengths(target) {
            Some(t) => Some(Type::Ptr(Box::new(t), *mutable)),
            None => None,
        },
        Type::Adt(kind, name, fields) => {
            let mut out: Vec<Type> = Vec::new();
            let mut i: usize = 0;
            while i < fields.len()
                invariant
                    ty is Adt,
                    ty->Adt_2 == *fields,
                    i <= fields.len(),
                    out.len() == i,
                    forall|j: int| 0 <= j < i ==> fields@[j].model().resolvable(),
                    forall|j: int| 0 <= j < i ==> (#[trigger] out@[j]).model() == fields@[j].model().resolved(),
                decreases fields.len() - i,
            {
                match resolve_lengths(&fields[i]) {
                    Some(t) => {
                        out.push(t);
                    },
                    None => {
                        assert(!ty@->Adt_2[i as int].resolvable());
                        return None;
                    },
                }
                i = i + 1;
            }
            let r = Type::Adt(*kind, *name, out);
            proof {
                assert forall|j: int| 0 <= j < ty@->Adt_2.len() implies (
                #[trigger] ty@->Adt_2[j]).resolvable() by {
                    assert(fields@[j].model().resolvable());
                }
                assert(r@->Adt_2 =~= ty@.resolved()->Adt_2);
            }
            Some(r)
        },
        Type::Param(name) => Some(Type::Param(*name)),
    }
}

/// Number of elements of an array type, with a length that is written as
/// the size of a type evaluated. Nothing for other types, and for a length
/// that cannot be evaluated.
pub fn array_len(ty: &Type) -> (r: Option<usize>)
    ensures
        r == ty@.array_len(),
{
    match ty {
        Type::Array(_, len) => Some(*len),
        Type::ArrayOfSize(_, measured) => size_of(measured),
        _ => None,
    }
}

} // verus!
