//! The built-in operations and the primitive operations they become.

use crate::error::CompileError;
use crate::layout::{layout_of, size_of};
use crate::ptr::ConstPtr;
use crate::types::{all_concrete, are_concrete, views, Symbol, Ty, Type};
use vstd::prelude::*;

verus! {

/// The operations that are built into the language.
#[derive(Clone, Copy, PartialEq, Eq, Structural, Debug)]
pub enum Intrinsic {
    /// `size_of<T>() -> usize`
    SizeOf,
    /// `transmute<U, V>(x: U) -> V`
    Transmute,
    /// `offset<T>(dst: *const T, offset: isize) -> *const T`
    Offset,
}

/// The names under which the built-in operations are declared.
#[derive(Clone, Copy, Debug)]
pub struct IntrinsicNames {
    pub size_of: Symbol,
    pub transmute: Symbol,
    pub offset: Symbol,
}

/// The primitive operation that a call of a built-in operation becomes.
#[derive(Clone, Copy, PartialEq, Eq, Structural, Debug)]
pub enum Lowered {
    /// A number that is known at compile time.
    Constant(usize),
    /// The bytes of the argument read as a value of another type; with the
    /// number of bytes.
    Reinterpret(usize),
    /// The address of the argument moved by a number of elements; with the
    /// size of an element in bytes.
    Advance(usize),
}

impl Intrinsic {
    /// Number of type arguments.
    pub open spec fn type_arity(self) -> nat {
        match self {
            Intrinsic::SizeOf => 1,
            Intrinsic::Transmute => 2,
            Intrinsic::Offset => 1,
        }
    }

    /// Number of arguments.
    pub open spec fn value_arity(self) -> nat {
        match self {
            Intrinsic::SizeOf => 0,
            Intrinsic::Transmute => 1,
            Intrinsic::Offset => 2,
        }
    }
}

/// The built-in operation that is declared under `name`, if it is one.
pub open spec fn recognized(names: IntrinsicNames, name: Symbol) -> Option<Intrinsic> {
    if name == names.size_of {
        Some(Intrinsic::SizeOf)
    } else if name == names.transmute {
        Some(Intrinsic::Transmute)
    } else if name == names.offset {
        Some(Intrinsic::Offset)
    } else {
        None
    }
}

/// Values of the two types have a size, and the same.
pub open spec fn reinterpretable(from: Ty, to: Ty) -> bool {
    from.has_layout() && to.has_layout() && from.size() == to.size()
}

/// What the call of a built-in operation with the given type arguments and
/// number of arguments becomes. The numbers of type arguments and of
/// arguments must be those of the operation, and the type arguments must be
/// concrete and have a size. The size of a type becomes a constant, pointer
/// arithmetic becomes an advance by elements of the pointee's size, and a
/// reinterpretation between types of the same size becomes a reading of the
/// same bytes.
pub open spec fn lowering(intrinsic: Intrinsic, type_args: Seq<Ty>, value_args: nat) -> Result<
    Lowered,
    CompileError,
> {
    if type_args.len() != intrinsic.type_arity() || value_args != intrinsic.value_arity() {
        Err(CompileError::ArityMismatch)
    } else if !all_concrete(type_args) {
        Err(CompileError::UnresolvedInference)
    } else if exists|i: int| 0 <= i < type_args.len() && !(#[trigger] type_args[i]).has_layout() {
        Err(CompileError::NoMatchingTraitImpl)
    } else {
        match intrinsic {
            Intrinsic::SizeOf => Ok(Lowered::Constant(type_args[0].size() as usize)),
            Intrinsic::Offset => Ok(Lowered::Advance(type_args[0].size() as usize)),
            Intrinsic::Transmute => if type_args[0].size() == type_args[1].size() {
                Ok(Lowered::Reinterpret(type_args[0].size() as usize))
            } else {
                Err(CompileError::SizeMismatch)
            },
        }
    }
}

/// The built-in operation that is declared under `name`, if it is one.
pub fn recognize(names: &IntrinsicNames, name: Symbol) -> (r: Option<Intrinsic>)
    ensures
        r == recognized(*names, name),
{
    if name == names.size_of {
        Some(Intrinsic::SizeOf)
    } else if name == names.transmute {
        Some(Intrinsic::Transmute)
    } else if name == names.offset {
        Some(Intrinsic::Offset)
    } else {
        None
    }
}

/// Replaces the call of a built-in operation by a primitive operation.
pub fn lower(intrinsic: Intrinsic, type_args: &Vec<Type>, value_args: usize) -> (r: Result<
    Lowered,
    CompileError,
>)
    ensures
        r == lowering(intrinsic, views(type_args@), value_args as nat),
{
    let (type_arity, value_arity): (usize, usize) = match intrinsic {
        Intrinsic::SizeOf => (1, 0),
        Intrinsic::Transmute => (2, 1),
        Intrinsic::Offset => (1, 2),
    };
    if type_args.len() != type_arity || value_args != value_arity {
        return Err(CompileError::ArityMismatch);
    }
    if !are_concrete(type_args) {
        return Err(CompileError::UnresolvedInference);
    }
    let ghost tys = views(type_args@);
    let first = match size_of(&type_args[0]) {
        Some(size) => size,
        None => {
            assert(!tys[0].has_layout());
            return Err(CompileError::NoMatchingTraitImpl);
        },
    };
    match intrinsic {
        Intrinsic::SizeOf => Ok(Lowered::Constant(first)),
        Intrinsic::Offset => Ok(Lowered::Advance(first)),
        Intrinsic::Transmute => {
            let second = match size_of(&type_args[1]) {
                Some(size) => size,
                None => {
                    assert(!tys[1].has_layout());
                    return Err(CompileError::NoMatchingTraitImpl);
                },
            };
            if first == second {
                Ok(Lowered::Reinterpret(first))
            } else {
                Err(CompileError::SizeMismatch)
            }
        },
    }
}

/// Reads the bytes of a value of type `from` as a value of type `to`. The
/// bytes are handed back as they are: no conversion takes place. This is
/// refused unless both types have the size that `bytes` has.
pub fn transmute(bytes: Vec<u8>, from: &Type, to: &Type) -> (r: Result<Vec<u8>, CompileError>)
    ensures
        match r {
            Ok(out) => out@ == bytes@ && reinterpretable(from@, to@) && bytes@.len()
                == from@.size(),
            Err(e) => e == CompileError::SizeMismatch && !(reinterpretable(from@, to@)
                && bytes@.len() == from@.size()),
        },
{
    match size_of(from) {
        None => Err(CompileError::SizeMismatch),
        Some(size) => match size_of(to) {
            None => Err(CompileError::SizeMismatch),
            Some(target) => if size == target && bytes.len() == size {
                Ok(bytes)
            } else {
                Err(CompileError::SizeMismatch)
            },
        },
    }
}

/// The pointer to a value of type `pointee` at address `addr`; nothing if
/// values of that type have no size.
pub fn pointer_to(addr: usize, pointee: &Type) -> (r: Option<ConstPtr>)
    ensures
        r == (if pointee@.has_layout() {
            Some(ConstPtr { addr, stride: pointee@.size() as usize })
        } else {
            None
        }),
{
    match layout_of(pointee) {
        Some(l) => Some(ConstPtr { addr, stride: l.size }),
        None => None,
    }
}

} // verus!
