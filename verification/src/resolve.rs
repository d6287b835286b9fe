//! Resolution of method calls and of indexing expressions to the
//! implementation that carries them out.

use crate::error::CompileError;
use crate::infer::{match_types, matchable};
use crate::types::{
    dup_all, find_position, lemma_position, views, AdtKind, Prim, Symbol, Ty, Type,
};
use vstd::prelude::*;

verus! {

/// The names under which the language knows the items that indexing relies on.
#[derive(Clone, Copy, Debug)]
pub struct LangItems {
    /// The struct of bounded ranges, generic in its bounds.
    pub range: Symbol,
    /// The trait of the indices of a sequence.
    pub slice_index: Symbol,
    /// The method of that trait that performs the access.
    pub index_method: Symbol,
}

/// A set of methods for the types of one shape: the methods of a trait where
/// `trait_name` gives one, inherent methods where it does not. `self_type`
/// is the shape of the implementing type and `trait_args` are the type
/// arguments of the trait; both may mention the parameters of `generics`.
#[derive(Debug)]
pub struct ImplRecord {
    pub trait_name: Option<Symbol>,
    pub generics: Vec<Symbol>,
    pub self_type: Type,
    pub trait_args: Vec<Type>,
    pub methods: Vec<Symbol>,
}

/// The mathematical value of an [`ImplRecord`].
pub ghost struct ImplView {
    pub trait_name: Option<Symbol>,
    pub generics: Seq<Symbol>,
    pub self_type: Ty,
    pub trait_args: Seq<Ty>,
    pub methods: Seq<Symbol>,
}

impl View for ImplRecord {
    type V = ImplView;

    open spec fn view(&self) -> ImplView {
        ImplView {
            trait_name: self.trait_name,
            generics: self.generics@,
            self_type: self.self_type@,
            trait_args: views(self.trait_args@),
            methods: self.methods@,
        }
    }
}

/// The views of a list of records.
pub open spec fn impl_views(records: Seq<ImplRecord>) -> Seq<ImplView> {
    Seq::new(records.len(), |i: int| records[i]@)
}

/// Which records a resolution looks at.
#[derive(Clone, Copy, PartialEq, Eq, Structural, Debug)]
pub enum Scope {
    /// Inherent methods.
    Inherent,
    /// The methods of any trait.
    AnyTrait,
    /// The methods of the named trait, for given type arguments of the trait.
    Trait(Symbol),
}

/// What a resolution asks for: a method by name, on a type, within a scope.
/// For the scope of a named trait, `trait_args` are the type arguments that
/// the trait must have been implemented for.
pub ghost struct Query {
    pub scope: Scope,
    pub self_type: Ty,
    pub trait_args: Seq<Ty>,
    pub method: Symbol,
}

impl ImplView {
    /// Whether the record is within the scope.
    pub open spec fn in_scope(self, scope: Scope) -> bool {
        match scope {
            Scope::Inherent => self.trait_name is None,
            Scope::AnyTrait => self.trait_name is Some,
            Scope::Trait(name) => self.trait_name == Some(name),
        }
    }

    /// Whether the record answers the query: it is within the scope, it has
    /// the method, and its generic parameters can be chosen so that its
    /// implementing type is the type asked for and, within the scope of a
    /// named trait, the trait's type arguments are the ones asked for.
    pub open spec fn applies(self, q: Query) -> bool {
        &&& self.in_scope(q.scope)
        &&& self.methods.contains(q.method)
        &&& if q.scope is Trait {
            matchable(
                self.generics,
                seq![self.self_type] + self.trait_args,
                seq![q.self_type] + q.trait_args,
            )
        } else {
            matchable(self.generics, seq![self.self_type], seq![q.self_type])
        }
    }
}

/// The record at position `i` answers the query.
pub open spec fn applicable(records: Seq<ImplView>, q: Query, i: int) -> bool {
    0 <= i < records.len() && records[i].applies(q)
}

/// The record at position `i` is the only one that answers the query.
pub open spec fn sole(records: Seq<ImplView>, q: Query, i: int) -> bool {
    applicable(records, q, i) && forall|j: int| applicable(records, q, j) ==> j == i
}

/// What a search for the one record that answers a query found.
#[derive(Clone, Copy, PartialEq, Eq, Structural, Debug)]
pub enum Found {
    Nothing,
    One(usize),
    Many,
}

/// The method resolves to the record at position `i`: the only inherent
/// record that has it for the receiver's type or, where no inherent record
/// has it, the only record of a trait that has it.
pub open spec fn resolves_to(records: Seq<ImplView>, receiver: Ty, method: Symbol, i: int) -> bool {
    let inherent = Query { scope: Scope::Inherent, self_type: receiver, trait_args: seq![], method };
    let of_trait = Query { scope: Scope::AnyTrait, self_type: receiver, trait_args: seq![], method };
    ||| sole(records, inherent, i)
    ||| (forall|j: int| !applicable(records, inherent, j)) && sole(records, of_trait, i)
}

/// How an indexing expression is carried out.
#[derive(Clone, Copy, PartialEq, Eq, Structural, Debug)]
pub enum IndexPath {
    /// Access to the one element at a scalar index.
    Element,
    /// Access to the narrower sequence that a range selects.
    SubSequence,
    /// The indexing method of the implementation record at this position.
    Method(usize),
}

/// The element type of a contiguous sequence; nothing for other types.
pub open spec fn sequence_elem(ty: Ty) -> Option<Ty> {
    match ty {
        Ty::Array(elem, _) => Some(*elem),
        Ty::ArrayOfSize(elem, _) => Some(*elem),
        Ty::Slice(elem) => Some(*elem),
        _ => None,
    }
}

/// The type of a bounded range of scalar indices.
pub open spec fn scalar_range(lang: LangItems) -> Ty {
    Ty::Adt(AdtKind::Struct, lang.range, seq![Ty::Prim(Prim::Usize), Ty::Prim(Prim::Usize)])
}

/// The query for the implementation of the index trait for sequences of
/// `elem` by the index type `index`.
pub open spec fn index_query(lang: LangItems, elem: Ty, index: Ty) -> Query {
    Query {
        scope: Scope::Trait(lang.slice_index),
        self_type: index,
        trait_args: seq![Ty::Slice(Box::new(elem))],
        method: lang.index_method,
    }
}

/// Indexing a value of type `receiver` by a value of type `index` is carried
/// out along `path`. The receiver must be a contiguous sequence. The
/// built-in shapes come first: a scalar index selects an element, a bounded
/// range of scalar indices selects a narrower sequence. Any other index type
/// needs the one implementation of the index trait for sequences of the
/// receiver's element type.
pub open spec fn index_path(
    lang: LangItems,
    records: Seq<ImplView>,
    receiver: Ty,
    index: Ty,
    path: IndexPath,
) -> bool {
    match sequence_elem(receiver) {
        None => false,
        Some(elem) => if index == Ty::Prim(Prim::Usize) {
            path == IndexPath::Element
        } else if index == scalar_range(lang) {
            path == IndexPath::SubSequence
        } else {
            path matches IndexPath::Method(i) && sole(records, index_query(lang, elem, index), i as int)
        },
    }
}

/// How indexing a value of type `receiver` by a value of type `index` is
/// carried out: along the one path there is, and not at all where there is
/// none.
pub open spec fn index_resolution(
    lang: LangItems,
    records: Seq<ImplView>,
    receiver: Ty,
    index: Ty,
) -> Result<IndexPath, CompileError> {
    if exists|path: IndexPath| index_path(lang, records, receiver, index, path) {
        Ok(choose|path: IndexPath| index_path(lang, records, receiver, index, path))
    } else {
        Err(CompileError::NoMatchingTraitImpl)
    }
}

/// A method call resolves to one implementation at most.
pub proof fn lemma_resolution_is_unique(
    records: Seq<ImplView>,
    receiver: Ty,
    method: Symbol,
    i: int,
    j: int,
)
    requires
        resolves_to(records, receiver, method, i),
        resolves_to(records, receiver, method, j),
    ensures
        i == j,
{
}

/// An indexing expression is carried out along one path at most.
pub proof fn lemma_index_path_is_unique(
    lang: LangItems,
    records: Seq<ImplView>,
    receiver: Ty,
    index: Ty,
    p: IndexPath,
    q: IndexPath,
)
    requires
        index_path(lang, records, receiver, index, p),
        index_path(lang, records, receiver, index, q),
    ensures
        p == q,
{
}

/// Whether `methods` lists `name`.
pub fn has_method(methods: &Vec<Symbol>, name: Symbol) -> (r: bool)
    ensures
        r == methods@.contains(name),
{
    proof {
        lemma_position(methods@, name, 0);
    }
    find_position(methods, name).is_some()
}

impl ImplRecord {
    /// Whether the record answers a query for `method` on `self_type` within
    /// `scope`; for the scope of a named trait, with the trait's type
    /// arguments `trait_args`.
    pub fn answers(&self, scope: Scope, self_type: &Type, trait_args: &Vec<Type>, method: Symbol) -> (r:
        bool)
        ensures
            r == self@.applies(
                Query { scope, self_type: self_type@, trait_args: views(trait_args@), method },
            ),
    {
        let in_scope = match scope {
            Scope::Inherent => self.trait_name.is_none(),
            Scope::AnyTrait => self.trait_name.is_some(),
            Scope::Trait(name) => match self.trait_name {
                Some(own) => own == name,
                None => false,
            },
        };
        if !in_scope || !has_method(&self.methods, method) {
            return false;
        }
        let mut pats: Vec<Type> = Vec::new();
        let mut targets: Vec<Type> = Vec::new();
        pats.push(self.self_type.dup());
        targets.push(self_type.dup());
        if let Scope::Trait(_) = scope {
            let mut more_pats = dup_all(&self.trait_args);
            let mut more_targets = dup_all(trait_args);
            pats.append(&mut more_pats);
            targets.append(&mut more_targets);
            assert(views(pats@) =~= seq![self.self_type@] + views(self.trait_args@));
            assert(views(targets@) =~= seq![self_type@] + views(trait_args@));
        } else {
            assert(views(pats@) =~= seq![self.self_type@]);
            assert(views(targets@) =~= seq![self_type@]);
        }
        match_types(&self.generics, &pats, &targets).is_some()
    }
}

/// Looks for the one record that answers a query.
pub fn select(
    records: &Vec<ImplRecord>,
    scope: Scope,
    self_type: &Type,
    trait_args: &Vec<Type>,
    method: Symbol,
) -> (r: Found)
    ensures
        ({
            let q = Query { scope, self_type: self_type@, trait_args: views(trait_args@), method };
            match r {
                Found::Nothing => forall|i: int| !applicable(impl_views(records@), q, i),
                Found::One(i) => sole(impl_views(records@), q, i as int),
                Found::Many => exists|i: int, j: int|
                    i != j && applicable(impl_views(records@), q, i) && applicable(
                        impl_views(records@),
                        q,
                        j,
                    ),
            }
        }),
{
    let ghost q = Query { scope, self_type: self_type@, trait_args: views(trait_args@), method };
    let ghost rs = impl_views(records@);
    let mut found = Found::Nothing;
    let mut i: usize = 0;
    while i < records.len()
        invariant
            i <= records.len(),
            rs == impl_views(records@),
            q == (Query { scope, self_type: self_type@, trait_args: views(trait_args@), method }),
            match found {
                Found::Nothing => forall|j: int| 0 <= j < i ==> !applicable(rs, q, j),
                Found::One(k) => k < i && applicable(rs, q, k as int) && forall|j: int|
                    0 <= j < i && applicable(rs, q, j) ==> j == k,
                Found::Many => false,
            },
        decreases records.len() - i,
    {
        if records[i].answers(scope, self_type, trait_args, method) {
            match found {
                Found::Nothing => {
                    found = Found::One(i);
                },
                Found::One(k) => {
                    assert(applicable(rs, q, k as int) && applicable(rs, q, i as int));
                    return Found::Many;
                },
                Found::Many => {},
            }
        }
        i = i + 1;
    }
    found
}

/// Finds the implementation that a method call on a value of type
/// `receiver` goes to. Inherent methods take precedence over the methods of
/// traits. The call is refused where no record has the method for the
/// receiver's type, and where more than one of the kind that takes
/// precedence has it.
pub fn resolve_method(records: &Vec<ImplRecord>, receiver: &Type, method: Symbol) -> (r: Result<
    usize,
    CompileError,
>)
    ensures
        match r {
            Ok(i) => resolves_to(impl_views(records@), receiver@, method, i as int),
            Err(e) => e == CompileError::NoMatchingTraitImpl && forall|i: int|
                !resolves_to(impl_views(records@), receiver@, method, i),
        },
{
    let none: Vec<Type> = Vec::new();
    assert(views(none@) =~= seq![]);
    match select(records, Scope::Inherent, receiver, &none, method) {
        Found::One(i) => Ok(i),
        Found::Many => Err(CompileError::NoMatchingTraitImpl),
        Found::Nothing => match select(records, Scope::AnyTrait, receiver, &none, method) {
            Found::One(i) => Ok(i),
            _ => Err(CompileError::NoMatchingTraitImpl),
        },
    }
}

/// Decides how the indexing expression `collection[idx]` is carried out,
/// from the type of the collection and the type of the index.
pub fn resolve_index(lang: &LangItems, records: &Vec<ImplRecord>, receiver: &Type, index: &Type) -> (r:
    Result<IndexPath, CompileError>)
    ensures
        match r {
            Ok(path) => index_path(*lang, impl_views(records@), receiver@, index@, path),
            Err(e) => e == CompileError::NoMatchingTraitImpl && forall|path: IndexPath|
                !index_path(*lang, impl_views(records@), receiver@, index@, path),
        },
        r == index_resolution(*lang, impl_views(records@), receiver@, index@),
        sequence_elem(receiver@) is None ==> r is Err,
        sequence_elem(receiver@) is Some && index@ == Ty::Prim(Prim::Usize) ==> r == Ok::<
            IndexPath,
            CompileError,
        >(IndexPath::Element),
        sequence_elem(receiver@) is Some && index@ != Ty::Prim(Prim::Usize) && index@
            == scalar_range(*lang) ==> r == Ok::<IndexPath, CompileError>(IndexPath::SubSequence),
{
    let elem = match receiver {
        Type::Array(elem, _) => elem,
        Type::ArrayOfSize(elem, _) => elem,
        Type::Slice(elem) => elem,
        _ => {
            return Err(CompileError::NoMatchingTraitImpl);
        },
    };
    let scalar = Type::Prim(Prim::Usize);
    if index.same(&scalar) {
        assert(index_path(*lang, impl_views(records@), receiver@, index@, IndexPath::Element));
        return Ok(IndexPath::Element);
    }
    let mut bounds: Vec<Type> = Vec::new();
    bounds.push(Type::Prim(Prim::Usize));
    bounds.push(Type::Prim(Prim::Usize));
    let range = Type::Adt(AdtKind::Struct, lang.range, bounds);
    assert(range@->Adt_2 =~= seq![Ty::Prim(Prim::Usize), Ty::Prim(Prim::Usize)]);
    if index.same(&range) {
        assert(index_path(*lang, impl_views(records@), receiver@, index@, IndexPath::SubSequence));
        return Ok(IndexPath::SubSequence);
    }
    let mut trait_args: Vec<Type> = Vec::new();
    trait_args.push(Type::Slice(Box::new(elem.dup())));
    assert(views(trait_args@) =~= seq![Ty::Slice(Box::new(elem@))]);
    match select(records, Scope::Trait(lang.slice_index), index, &trait_args, lang.index_method) {
        Found::One(i) => {
            assert(index_path(*lang, impl_views(records@), receiver@, index@, IndexPath::Method(i)));
            Ok(IndexPath::Method(i))
        },
        _ => {
            assert forall|path: IndexPath| !index_path(
                *lang,
                impl_views(records@),
                receiver@,
                index@,
                path,
            ) by {}
            Err(CompileError::NoMatchingTraitImpl)
        },
    }
}

} // verus!
