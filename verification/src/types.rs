//! Type descriptors, and substitution of types for generic parameters.

use vstd::prelude::*;

verus! {

/// An interned name.
pub type Symbol = u32;

/// The primitive types.
#[derive(Clone, Copy, PartialEq, Eq, Structural, Debug)]
pub enum Prim {
    Unit,
    Bool,
    U8,
    U16,
    U32,
    U64,
    Usize,
    I8,
    I16,
    I32,
    I64,
    Isize,
    /// A reference to a string literal.
    Str,
}

/// The three kinds of aggregate.
#[derive(Clone, Copy, PartialEq, Eq, Structural, Debug)]
pub enum AdtKind {
    Struct,
    Enum,
    Union,
}

/// A type descriptor as it is stored and passed around.
#[derive(Debug)]
pub enum Type {
    Prim(Prim),
    /// `[elem; len]`
    Array(Box<Type>, usize),
    /// `[elem; size_of::<measured>()]`
    ArrayOfSize(Box<Type>, Box<Type>),
    /// `[elem]`, a contiguous sequence of unknown length
    Slice(Box<Type>),
    /// A raw pointer; the flag says whether writes go through it.
    Ptr(Box<Type>, bool),
    /// An aggregate with its name and the types of its fields, in order.
    Adt(AdtKind, Symbol, Vec<Type>),
    /// A generic parameter, by name.
    Param(Symbol),
}

/// The mathematical value of a type descriptor.
pub ghost enum Ty {
    Prim(Prim),
    Array(Box<Ty>, usize),
    ArrayOfSize(Box<Ty>, Box<Ty>),
    Slice(Box<Ty>),
    Ptr(Box<Ty>, bool),
    Adt(AdtKind, Symbol, Seq<Ty>),
    Param(Symbol),
}

impl Type {
    /// The mathematical value of the descriptor.
    pub open spec fn model(&self) -> Ty
        decreases self,
    {
        match self {
            Type::Prim(p) => Ty::Prim(*p),
            Type::Array(elem, len) => Ty::Array(Box::new(elem.model()), *len),
            Type::ArrayOfSize(elem, measured) => Ty::ArrayOfSize(
                Box::new(elem.model()),
                Box::new(measured.model()),
            ),
            Type::Slice(elem) => Ty::Slice(Box::new(elem.model())),
            Type::Ptr(target, mutable) => Ty::Ptr(Box::new(target.model()), *mutable),
            Type::Adt(kind, name, fields) => Ty::Adt(
                *kind,
                *name,
                Seq::new(
                    fields@.len(),
                    |i: int|
                        if 0 <= i < fields@.len() {
                            fields[i].model()
                        } else {
                            Ty::Prim(Prim::Unit)
                        },
                ),
            ),
            Type::Param(name) => Ty::Param(*name),
        }
    }
}

impl View for Type {
    type V = Ty;

    open spec fn view(&self) -> Ty {
        self.model()
    }
}

/// The values of a list of type descriptors.
pub open spec fn views(types: Seq<Type>) -> Seq<Ty> {
    Seq::new(types.len(), |i: int| types[i]@)
}

/// First position of `name` in `generics` at or after `from`, if there is one.
pub open spec fn position_from(generics: Seq<Symbol>, name: Symbol, from: int) -> Option<int>
    decreases generics.len() - from,
{
    if from < 0 || from >= generics.len() {
        None
    } else if generics[from] == name {
        Some(from)
    } else {
        position_from(generics, name, from + 1)
    }
}

/// What a generic parameter stands for: the argument at the first position
/// at which `generics` lists the parameter's name.
pub open spec fn bound_to(generics: Seq<Symbol>, args: Seq<Ty>, name: Symbol) -> Option<Ty> {
    match position_from(generics, name, 0) {
        Some(i) => if i < args.len() {
            Some(args[i])
        } else {
            None
        },
        None => None,
    }
}

impl Ty {
    /// No generic parameter occurs anywhere in the type.
    pub open spec fn concrete(self) -> bool
        decreases self,
    {
        match self {
            Ty::Prim(_) => true,
            Ty::Array(elem, _) => elem.concrete(),
            Ty::ArrayOfSize(elem, measured) => elem.concrete() && measured.concrete(),
            Ty::Slice(elem) => elem.concrete(),
            Ty::Ptr(target, _) => target.concrete(),
            Ty::Adt(_, _, fields) => forall|i: int|
                0 <= i < fields.len() ==> (#[trigger] fields[i]).concrete(),
            Ty::Param(_) => false,
        }
    }

    /// Every generic parameter that occurs in the type is listed in `generics`.
    pub open spec fn scoped(self, generics: Seq<Symbol>) -> bool
        decreases self,
    {
        match self {
            Ty::Prim(_) => true,
            Ty::Array(elem, _) => elem.scoped(generics),
            Ty::ArrayOfSize(elem, measured) => elem.scoped(generics) && measured.scoped(generics),
            Ty::Slice(elem) => elem.scoped(generics),
            Ty::Ptr(target, _) => target.scoped(generics),
            Ty::Adt(_, _, fields) => forall|i: int|
                0 <= i < fields.len() ==> (#[trigger] fields[i]).scoped(generics),
            Ty::Param(name) => generics.contains(name),
        }
    }

    /// The type with every occurrence of a parameter listed in `generics`
    /// replaced by the argument at the same position; array lengths and
    /// pointer targets included.
    pub open spec fn subst(self, generics: Seq<Symbol>, args: Seq<Ty>) -> Ty
        decreases self,
    {
        match self {
            Ty::Prim(_) => self,
            Ty::Array(elem, len) => Ty::Array(Box::new(elem.subst(generics, args)), len),
            Ty::ArrayOfSize(elem, measured) => Ty::ArrayOfSize(
                Box::new(elem.subst(generics, args)),
                Box::new(measured.subst(generics, args)),
            ),
            Ty::Slice(elem) => Ty::Slice(Box::new(elem.subst(generics, args))),
            Ty::Ptr(target, mutable) => Ty::Ptr(Box::new(target.subst(generics, args)), mutable),
            Ty::Adt(kind, name, fields) => Ty::Adt(
                kind,
                name,
                Seq::new(
                    fields.len(),
                    |i: int|
                        if 0 <= i < fields.len() {
                            fields[i].subst(generics, args)
                        } else {
                            self
                        },
                ),
            ),
            Ty::Param(name) => match bound_to(generics, args, name) {
                Some(arg) => arg,
                None => self,
            },
        }
    }
}

/// Every type of the list is free of generic parameters.
pub open spec fn all_concrete(types: Seq<Ty>) -> bool {
    forall|i: int| 0 <= i < types.len() ==> (#[trigger] types[i]).concrete()
}

/// Every type of the list mentions parameters of `generics` only.
pub open spec fn all_scoped(types: Seq<Ty>, generics: Seq<Symbol>) -> bool {
    forall|i: int| 0 <= i < types.len() ==> (#[trigger] types[i]).scoped(generics)
}

/// Substitution applied to each type of a list.
pub open spec fn subst_all(types: Seq<Ty>, generics: Seq<Symbol>, args: Seq<Ty>) -> Seq<Ty> {
    Seq::new(types.len(), |i: int| types[i].subst(generics, args))
}

impl Type {
    /// An independent copy of the descriptor.
    pub fn dup(&self) -> (r: Type)
        ensures
            r@ == self@,
        decreases self,
    {
        match self {
            Type::Prim(p) => Type::Prim(*p),
            Type::Array(elem, len) => Type::Array(Box::new(elem.dup()), *len),
            Type::ArrayOfSize(elem, measured) => Type::ArrayOfSize(
                Box::new(elem.dup()),
                Box::new(measured.dup()),
            ),
            Type::Slice(elem) => Type::Slice(Box::new(elem.dup())),
            Type::Ptr(target, mutable) => Type::Ptr(Box::new(target.dup()), *mutable),
            Type::Adt(kind, name, fields) => {
                let mut copies: Vec<Type> = Vec::new();
                let mut i: usize = 0;
                while i < fields.len()
                    invariant
                        self is Adt,
                        self->Adt_2 == *fields,
                        i <= fields.len(),
                        copies.len() == i,
                        forall|j: int| 0 <= j < i ==> copies@[j]@ == fields@[j]@,
                    decreases fields.len() - i,
                {
                    copies.push(fields[i].dup());
                    i = i + 1;
                }
                let r = Type::Adt(*kind, *name, copies);
                assert(r@->Adt_2 =~= self@->Adt_2);
                r
            },
            Type::Param(name) => Type::Param(*name),
        }
    }

    /// Structural equality of two descriptors.
    pub fn same(&self, other: &Type) -> (r: bool)
        ensures
            r == (self@ == other@),
        decreases self,
    {
        match self {
            Type::Prim(p) => match other {
                Type::Prim(q) => *p == *q,
                _ => false,
            },
            Type::Array(elem, len) => match other {
                Type::Array(elem2, len2) => *len == *len2 && elem.same(elem2),
                _ => false,
            },
            Type::ArrayOfSize(elem, measured) => match other {
                Type::ArrayOfSize(elem2, measured2) => elem.same(elem2) && measured.same(measured2),
                _ => false,
            },
            Type::Slice(elem) => match other {
                Type::Slice(elem2) => elem.same(elem2),
                _ => false,
            },
            Type::Ptr(target, mutable) => match other {
                Type::Ptr(target2, mutable2) => *mutable == *mutable2 && target.same(target2),
                _ => false,
            },
            Type::Adt(kind, name, fields) => match other {
                Type::Adt(kind2, name2, fields2) => {
                    assert(self@->Adt_2.len() == fields.len());
                    assert(other@->Adt_2.len() == fields2.len());
                    if *kind != *kind2 || *name != *name2 || fields.len() != fields2.len() {
                        return false;
                    }
                    let mut i: usize = 0;
                    while i < fields.len()
                        invariant
                            self is Adt,
                            self->Adt_2 == *fields,
                            other is Adt,
                            other->Adt_2 == *fields2,
                            fields.len() == fields2.len(),
                            i <= fields.len(),
                            forall|j: int| 0 <= j < i ==> fields@[j]@ == fields2@[j]@,
                        decreases fields.len() - i,
                    {
                        if !fields[i].same(&fields2[i]) {
                            assert(self@->Adt_2[i as int] != other@->Adt_2[i as int]);
                            return false;
                        }
                        i = i + 1;
                    }
                    assert(self@->Adt_2 =~= other@->Adt_2);
                    true
                },
                _ => false,
            },
            Type::Param(name) => match other {
                Type::Param(name2) => *name == *name2,
                _ => false,
            },
        }
    }

    /// Whether the descriptor is free of generic parameters.
    pub fn is_concrete(&self) -> (r: bool)
        ensures
            r == self@.concrete(),
        decreases self,
    {
        match self {
            Type::Prim(_) => true,
            Type::Array(elem, _) => elem.is_concrete(),
            Type::ArrayOfSize(elem, measured) => elem.is_concrete() && measured.is_concrete(),
            Type::Slice(elem) => elem.is_concrete(),
            Type::Ptr(target, _) => target.is_concrete(),
            Type::Adt(_, _, fields) => {
                let mut i: usize = 0;
                while i < fields.len()
                    invariant
                        self is Adt,
                        self->Adt_2 == *fields,
                        i <= fields.len(),
                        forall|j: int| 0 <= j < i ==> (#[trigger] fields@[j]@).concrete(),
                    decreases fields.len() - i,
                {
                    if !fields[i].is_concrete() {
                        assert(!self@->Adt_2[i as int].concrete());
                        return false;
                    }
                    i = i + 1;
                }
                assert forall|j: int| 0 <= j < self@->Adt_2.len() implies (
                #[trigger] self@->Adt_2[j]).concrete() by {
                    assert(fields@[j]@.concrete());
                }
                true
            },
            Type::Param(_) => false,
        }
    }

    /// Whether every generic parameter of the descriptor is listed in `generics`.
    pub fn is_scoped(&self, generics: &Vec<Symbol>) -> (r: bool)
        ensures
            r == self@.scoped(generics@),
        decreases self,
    {
        match self {
            Type::Prim(_) => true,
            Type::Array(elem, _) => elem.is_scoped(generics),
            Type::ArrayOfSize(elem, measured) => elem.is_scoped(generics) && measured.is_scoped(
                generics,
            ),
            Type::Slice(elem) => elem.is_scoped(generics),
            Type::Ptr(target, _) => target.is_scoped(generics),
            Type::Adt(_, _, fields) => {
                let mut i: usize = 0;
                while i < fields.len()
                    invariant
                        self is Adt,
                        self->Adt_2 == *fields,
                        i <= fields.len(),
                        forall|j: int| 0 <= j < i ==> (#[trigger] fields@[j]@).scoped(generics@),
                    decreases fields.len() - i,
                {
                    if !fields[i].is_scoped(generics) {
                        assert(!self@->Adt_2[i as int].scoped(generics@));
                        return false;
                    }
                    i = i + 1;
                }
                assert forall|j: int| 0 <= j < self@->Adt_2.len() implies (
                #[trigger] self@->Adt_2[j]).scoped(generics@) by {
                    assert(fields@[j]@.scoped(generics@));
                }
                true
            },
            Type::Param(name) => {
                let found = find_position(generics, *name);
                proof {
                    lemma_position(generics@, *name, 0);
                }
                found.is_some()
            },
        }
    }

    /// The descriptor with every parameter listed in `generics` replaced by
    /// a copy of the argument at the same position.
    pub fn substitute(&self, generics: &Vec<Symbol>, args: &Vec<Type>) -> (r: Type)
        ensures
            r@ == self@.subst(generics@, views(args@)),
        decreases self,
    {
        match self {
            Type::Prim(p) => Type::Prim(*p),
            Type::Array(elem, len) => Type::Array(Box::new(elem.substitute(generics, args)), *len),
            Type::ArrayOfSize(elem, measured) => Type::ArrayOfSize(
                Box::new(elem.substitute(generics, args)),
                Box::new(measured.substitute(generics, args)),
            ),
            Type::Slice(elem) => Type::Slice(Box::new(elem.substitute(generics, args))),
            Type::Ptr(target, mutable) => Type::Ptr(
                Box::new(target.substitute(generics, args)),
                *mutable,
            ),
            Type::Adt(kind, name, fields) => {
                let mut out: Vec<Type> = Vec::new();
                let mut i: usize = 0;
                while i < fields.len()
                    invariant
                        self is Adt,
                        self->Adt_2 == *fields,
                        i <= fields.len(),
                        out.len() == i,
                        forall|j: int|
                            0 <= j < i ==> out@[j]@ == fields@[j]@.subst(generics@, views(args@)),
                    decreases fields.len() - i,
                {
                    out.push(fields[i].substitute(generics, args));
                    i = i + 1;
                }
                let r = Type::Adt(*kind, *name, out);
                assert(r@->Adt_2 =~= self@.subst(generics@, views(args@))->Adt_2);
                r
            },
            Type::Param(name) => {
                match find_position(generics, *name) {
                    Some(i) => if i < args.len() {
                        args[i].dup()
                    } else {
                        Type::Param(*name)
                    },
                    None => Type::Param(*name),
                }
            },
        }
    }
}

/// Independent copies of a list of descriptors.
pub fn dup_all(types: &Vec<Type>) -> (r: Vec<Type>)
    ensures
        views(r@) == views(types@),
{
    let mut out: Vec<Type> = Vec::new();
    let mut i: usize = 0;
    while i < types.len()
        invariant
            i <= types.len(),
            out.len() == i,
            forall|j: int| 0 <= j < i ==> out@[j]@ == types@[j]@,
        decreases types.len() - i,
    {
        out.push(types[i].dup());
        i = i + 1;
    }
    assert(views(out@) =~= views(types@));
    out
}

/// Whether two lists hold structurally equal descriptors, position by position.
pub fn same_types(left: &Vec<Type>, right: &Vec<Type>) -> (r: bool)
    ensures
        r == (views(left@) == views(right@)),
{
    if left.len() != right.len() {
        assert(views(left@).len() != views(right@).len());
        return false;
    }
    let mut i: usize = 0;
    while i < left.len()
        invariant
            left.len() == right.len(),
            i <= left.len(),
            forall|j: int| 0 <= j < i ==> left@[j]@ == right@[j]@,
        decreases left.len() - i,
    {
        if !left[i].same(&right[i]) {
            assert(views(left@)[i as int] != views(right@)[i as int]);
            return false;
        }
        i = i + 1;
    }
    assert(views(left@) =~= views(right@));
    true
}

/// Whether every descriptor of the list is free of generic parameters.
pub fn are_concrete(types: &Vec<Type>) -> (r: bool)
    ensures
        r == all_concrete(views(types@)),
{
    let mut i: usize = 0;
    while i < types.len()
        invariant
            i <= types.len(),
            forall|j: int| 0 <= j < i ==> (#[trigger] views(types@)[j]).concrete(),
        decreases types.len() - i,
    {
        if !types[i].is_concrete() {
            assert(!views(types@)[i as int].concrete());
            return false;
        }
        i = i + 1;
    }
    true
}

/// Whether every descriptor of the list mentions parameters of `generics` only.
pub fn are_scoped(types: &Vec<Type>, generics: &Vec<Symbol>) -> (r: bool)
    ensures
        r == all_scoped(views(types@), generics@),
{
    let mut i: usize = 0;
    while i < types.len()
        invariant
            i <= types.len(),
            forall|j: int| 0 <= j < i ==> (#[trigger] views(types@)[j]).scoped(generics@),
        decreases types.len() - i,
    {
        if !types[i].is_scoped(generics) {
            assert(!views(types@)[i as int].scoped(generics@));
            return false;
        }
        i = i + 1;
    }
    true
}

/// Substitution applied to each descriptor of a list.
pub fn substitute_all(types: &Vec<Type>, generics: &Vec<Symbol>, args: &Vec<Type>) -> (r: Vec<Type>)
    ensures
        views(r@) == subst_all(views(types@), generics@, views(args@)),
{
    let mut out: Vec<Type> = Vec::new();
    let mut i: usize = 0;
    while i < types.len()
        invariant
            i <= types.len(),
            out.len() == i,
            forall|j: int| 0 <= j < i ==> out@[j]@ == types@[j]@.subst(generics@, views(args@)),
        decreases types.len() - i,
    {
        out.push(types[i].substitute(generics, args));
        i = i + 1;
    }
    assert(views(out@) =~= subst_all(views(types@), generics@, views(args@)));
    out
}

/// First position at which `generics` lists `name`.
pub fn find_position(generics: &Vec<Symbol>, name: Symbol) -> (r: Option<usize>)
    ensures
        match r {
            Some(i) => position_from(generics@, name, 0) == Some(i as int),
            None => position_from(generics@, name, 0) is None,
        },
{
    let mut i: usize = 0;
    while i < generics.len()
        invariant
            i <= generics.len(),
            position_from(generics@, name, 0) == position_from(generics@, name, i as int),
        decreases generics.len() - i,
    {
        if generics[i] == name {
            return Some(i);
        }
        i = i + 1;
    }
    None
}

/// The first position of a name is a position of the list that holds the
/// name, nothing before it does, and there is one exactly when the list
/// holds the name at or after `from`.
pub proof fn lemma_position(generics: Seq<Symbol>, name: Symbol, from: int)
    requires
        0 <= from,
    ensures
        match position_from(generics, name, from) {
            Some(i) => from <= i < generics.len() && generics[i] == name && forall|j: int|
                from <= j < i ==> generics[j] != name,
            None => forall|j: int| from <= j < generics.len() ==> generics[j] != name,
        },
        from == 0 ==> (position_from(generics, name, from) is Some <==> generics.contains(name)),
    decreases generics.len() - from,
{
    if from < generics.len() && generics[from] != name {
        lemma_position(generics, name, from + 1);
    }
}

/// Substitution leaves no parameter behind when every parameter of the type
/// is listed and every listed parameter has a concrete argument.
pub proof fn lemma_subst_concrete(ty: Ty, generics: Seq<Symbol>, args: Seq<Ty>)
    requires
        ty.scoped(generics),
        generics.len() <= args.len(),
        all_concrete(args),
    ensures
        ty.subst(generics, args).concrete(),
    decreases ty,
{
    match ty {
        Ty::Prim(_) => {},
        Ty::Array(elem, _) => lemma_subst_concrete(*elem, generics, args),
        Ty::ArrayOfSize(elem, measured) => {
            lemma_subst_concrete(*elem, generics, args);
            lemma_subst_concrete(*measured, generics, args);
        },
        Ty::Slice(elem) => lemma_subst_concrete(*elem, generics, args),
        Ty::Ptr(target, _) => lemma_subst_concrete(*target, generics, args),
        Ty::Adt(_, _, fields) => {
            let out = ty.subst(generics, args)->Adt_2;
            assert forall|i: int| 0 <= i < out.len() implies (#[trigger] out[i]).concrete() by {
                lemma_subst_concrete(fields[i], generics, args);
            }
        },
        Ty::Param(name) => {
            lemma_position(generics, name, 0);
        },
    }
}

} // verus!
