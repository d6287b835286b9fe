//! Declared items and the cache of their instantiations: each generic item
//! is made concrete once for each list of type arguments it is used with.

use crate::error::CompileError;
use crate::infer::{determines, infer, inferable};
use crate::types::{
    all_concrete, all_scoped, are_concrete, are_scoped, lemma_subst_concrete, same_types,
    subst_all, substitute_all, views, AdtKind, Symbol, Ty, Type,
};
use vstd::prelude::*;

verus! {

/// What an item declares: a function with its return type, or an aggregate.
#[derive(Debug)]
pub enum ItemKind {
    Function(Type),
    Aggregate(AdtKind),
}

/// A declared item: its name, the names of its generic parameters in
/// order, and the types of its members: the parameters of a function, the
/// fields of an aggregate.
#[derive(Debug)]
pub struct Item {
    pub name: Symbol,
    pub generics: Vec<Symbol>,
    pub members: Vec<Type>,
    pub kind: ItemKind,
}

/// An item with concrete types in place of its generic parameters.
#[derive(Debug)]
pub struct ConcreteItem {
    pub name: Symbol,
    pub type_args: Vec<Type>,
    pub members: Vec<Type>,
    pub kind: ItemKind,
}

/// One entry of the instantiation cache: the item that was instantiated and
/// what came of it. The entry's key is the item with the type arguments.
#[derive(Debug)]
pub struct Instance {
    pub item: usize,
    pub concrete: ConcreteItem,
}

/// The mathematical value of an [`ItemKind`].
pub ghost enum KindView {
    Function(Ty),
    Aggregate(AdtKind),
}

/// The mathematical value of an [`Item`].
pub ghost struct ItemView {
    pub name: Symbol,
    pub generics: Seq<Symbol>,
    pub members: Seq<Ty>,
    pub kind: KindView,
}

/// The mathematical value of a [`ConcreteItem`].
pub ghost struct ConcreteView {
    pub name: Symbol,
    pub type_args: Seq<Ty>,
    pub members: Seq<Ty>,
    pub kind: KindView,
}

/// The mathematical value of an [`Instance`].
pub ghost struct InstanceView {
    pub item: int,
    pub concrete: ConcreteView,
}

/// The state of a symbol table: the declared items in the order of their
/// declaration, and the instantiations made so far in the order in which
/// they were first asked for.
pub ghost struct TableView {
    pub items: Seq<ItemView>,
    pub cache: Seq<InstanceView>,
}

impl View for ItemKind {
    type V = KindView;

    open spec fn view(&self) -> KindView {
        match self {
            ItemKind::Function(ret) => KindView::Function(ret@),
            ItemKind::Aggregate(kind) => KindView::Aggregate(*kind),
        }
    }
}

impl View for Item {
    type V = ItemView;

    open spec fn view(&self) -> ItemView {
        ItemView {
            name: self.name,
            generics: self.generics@,
            members: views(self.members@),
            kind: self.kind@,
        }
    }
}

impl View for ConcreteItem {
    type V = ConcreteView;

    open spec fn view(&self) -> ConcreteView {
        ConcreteView {
            name: self.name,
            type_args: views(self.type_args@),
            members: views(self.members@),
            kind: self.kind@,
        }
    }
}

impl View for Instance {
    type V = InstanceView;

    open spec fn view(&self) -> InstanceView {
        InstanceView { item: self.item as int, concrete: self.concrete@ }
    }
}

impl KindView {
    /// The return type of a function mentions parameters of `generics` only.
    pub open spec fn scoped(self, generics: Seq<Symbol>) -> bool {
        match self {
            KindView::Function(ret) => ret.scoped(generics),
            KindView::Aggregate(_) => true,
        }
    }

    /// The return type of a function is free of generic parameters.
    pub open spec fn concrete(self) -> bool {
        match self {
            KindView::Function(ret) => ret.concrete(),
            KindView::Aggregate(_) => true,
        }
    }

    /// Substitution in the return type of a function.
    pub open spec fn subst(self, generics: Seq<Symbol>, args: Seq<Ty>) -> KindView {
        match self {
            KindView::Function(ret) => KindView::Function(ret.subst(generics, args)),
            KindView::Aggregate(kind) => KindView::Aggregate(kind),
        }
    }
}

impl ItemView {
    /// Every generic parameter that the item's types mention is one of its own.
    pub open spec fn scoped(self) -> bool {
        all_scoped(self.members, self.generics) && self.kind.scoped(self.generics)
    }

    /// Whether two items are declared under the same name with the same
    /// number of generic parameters.
    pub open spec fn same_key(self, other: ItemView) -> bool {
        self.name == other.name && self.generics.len() == other.generics.len()
    }

    /// The item with `args` in place of its generic parameters, position by
    /// position, in the types of its members and in its return type.
    pub open spec fn instantiate(self, args: Seq<Ty>) -> ConcreteView {
        ConcreteView {
            name: self.name,
            type_args: args,
            members: subst_all(self.members, self.generics, args),
            kind: self.kind.subst(self.generics, args),
        }
    }
}

impl InstanceView {
    /// Whether two cache entries were made for the same item with the same
    /// type arguments.
    pub open spec fn same_key(self, other: InstanceView) -> bool {
        self.item == other.item && self.concrete.type_args == other.concrete.type_args
    }
}

impl ConcreteView {
    /// No generic parameter is left anywhere in the item.
    pub open spec fn monomorphic(self) -> bool {
        all_concrete(self.type_args) && all_concrete(self.members) && self.kind.concrete()
    }
}

/// The views of a list of items.
pub open spec fn item_views(items: Seq<Item>) -> Seq<ItemView> {
    Seq::new(items.len(), |i: int| items[i]@)
}

/// The views of a list of cache entries.
pub open spec fn instance_views(cache: Seq<Instance>) -> Seq<InstanceView> {
    Seq::new(cache.len(), |i: int| cache[i]@)
}

impl TableView {
    /// Whether the item at `id` is declared under `name` with `arity` parameters.
    pub open spec fn keyed(self, id: int, name: Symbol, arity: nat) -> bool {
        0 <= id < self.items.len() && self.items[id].name == name && self.items[id].generics.len()
            == arity
    }

    /// Whether the cache entry at `k` was made for `item` with `args`.
    pub open spec fn cached_at(self, k: int, item: int, args: Seq<Ty>) -> bool {
        0 <= k < self.cache.len() && self.cache[k].item == item && self.cache[k].concrete.type_args
            == args
    }

    /// First cache entry at or after `from` that was made for `item` with `args`.
    pub open spec fn cached_from(self, item: int, args: Seq<Ty>, from: int) -> Option<int>
        decreases self.cache.len() - from,
    {
        if from < 0 || from >= self.cache.len() {
            None
        } else if self.cached_at(from, item, args) {
            Some(from)
        } else {
            self.cached_from(item, args, from + 1)
        }
    }

    /// Whether the cache entry at `k` holds what instantiating its item with
    /// its type arguments gives, for concrete type arguments, as many as the
    /// item has parameters.
    pub open spec fn entry_ok(self, k: int) -> bool {
        let entry = self.cache[k];
        &&& 0 <= entry.item < self.items.len()
        &&& entry.concrete.type_args.len() == self.items[entry.item].generics.len()
        &&& all_concrete(entry.concrete.type_args)
        &&& entry.concrete == self.items[entry.item].instantiate(entry.concrete.type_args)
    }

    /// The table's invariant. Items mention their own parameters only, and
    /// no two items share name and arity. Each cache entry holds what
    /// instantiating its item with its type arguments gives, the type
    /// arguments are concrete and as many as the item has parameters, and
    /// no two entries share a key.
    pub open spec fn wf(self) -> bool {
        &&& forall|i: int| 0 <= i < self.items.len() ==> (#[trigger] self.items[i]).scoped()
        &&& forall|i: int, j: int|
            0 <= i < j < self.items.len() ==> !(#[trigger] self.items[i]).same_key(
                #[trigger] self.items[j],
            )
        &&& forall|k: int| 0 <= k < self.cache.len() ==> #[trigger] self.entry_ok(k)
        &&& forall|k: int, l: int|
            0 <= k < l < self.cache.len() ==> !(#[trigger] self.cache[k]).same_key(
                #[trigger] self.cache[l],
            )
    }

    /// What instantiating the item at `item` with `args` does to the table
    /// and what it answers. A wrong number of arguments and an argument that
    /// still mentions a parameter are refused and leave the table as it is.
    /// A key that the cache holds is answered with the entry's position and
    /// leaves the table as it is. Any other key gets a new entry at the end
    /// of the cache and is answered with that position.
    pub open spec fn instantiate(self, item: int, args: Seq<Ty>) -> (
        TableView,
        Result<int, CompileError>,
    ) {
        if args.len() != self.items[item].generics.len() {
            (self, Err(CompileError::ArityMismatch))
        } else if !all_concrete(args) {
            (self, Err(CompileError::UnresolvedInference))
        } else {
            match self.cached_from(item, args, 0) {
                Some(k) => (self, Ok(k)),
                None => (
                    TableView {
                        items: self.items,
                        cache: self.cache.push(
                            InstanceView { item, concrete: self.items[item].instantiate(args) },
                        ),
                    },
                    Ok(self.cache.len() as int),
                ),
            }
        }
    }
}

impl TableView {
    /// What instantiating the item at `item` for a call does. Type
    /// arguments that are written at the call are taken as they are. Where
    /// none are written, they are inferred from the types of the arguments
    /// of the call: the types of the item's members must become the types
    /// of the arguments for exactly one choice of type arguments. Too few
    /// or too many arguments, and arguments that leave a parameter
    /// undetermined, are refused and leave the table as it is.
    pub open spec fn instantiate_call(
        self,
        item: int,
        explicit: Option<Seq<Ty>>,
        arg_types: Seq<Ty>,
    ) -> (TableView, Result<int, CompileError>) {
        match explicit {
            Some(args) => self.instantiate(item, args),
            None => {
                let decl = self.items[item];
                if inferable(decl.generics, decl.members, arg_types) {
                    self.instantiate(
                        item,
                        choose|s: Seq<Ty>| determines(decl.generics, decl.members, arg_types, s),
                    )
                } else if decl.members.len() != arg_types.len() {
                    (self, Err(CompileError::ArityMismatch))
                } else {
                    (self, Err(CompileError::UnresolvedInference))
                }
            },
        }
    }
}

/// The answer of a table, given as a machine integer, is the answer `spec`.
pub open spec fn answers(r: Result<usize, CompileError>, spec: Result<int, CompileError>) -> bool {
    match r {
        Ok(id) => spec == Ok::<int, CompileError>(id as int),
        Err(e) => spec == Err::<int, CompileError>(e),
    }
}

/// The first cache entry for a key is an entry for that key, no entry before
/// it is, and there is none exactly when no entry at or after `from` is.
pub proof fn lemma_cached_from(table: TableView, item: int, args: Seq<Ty>, from: int)
    requires
        0 <= from,
    ensures
        match table.cached_from(item, args, from) {
            Some(k) => from <= k && table.cached_at(k, item, args) && forall|j: int|
                from <= j < k ==> !table.cached_at(j, item, args),
            None => forall|j: int| from <= j ==> !table.cached_at(j, item, args),
        },
    decreases table.cache.len() - from,
{
    if from < table.cache.len() && !table.cached_at(from, item, args) {
        lemma_cached_from(table, item, args, from + 1);
    }
}

/// Instantiation keeps the table's invariant, never removes or changes an
/// entry of the cache, and an accepted request is answered with the position
/// of an entry that holds the item instantiated with the arguments, free of
/// generic parameters.
pub proof fn lemma_instantiate(table: TableView, item: int, args: Seq<Ty>)
    requires
        table.wf(),
        0 <= item < table.items.len(),
    ensures
        table.instantiate(item, args).0.wf(),
        table.instantiate(item, args).0.items == table.items,
        forall|k: int|
            0 <= k < table.cache.len() ==> table.instantiate(item, args).0.cache[k]
                == #[trigger] table.cache[k],
        table.instantiate(item, args).1 matches Ok(id) ==> table.instantiate(
            item,
            args,
        ).0.cached_at(id, item, args),
        table.instantiate(item, args).1 matches Ok(id) ==> table.instantiate(item, args).0.cache[id].concrete
            == table.items[item].instantiate(args),
        table.instantiate(item, args).1 matches Ok(id) ==> table.instantiate(
            item,
            args,
        ).0.cache[id].concrete.monomorphic(),
{
    let (after, answer) = table.instantiate(item, args);
    lemma_cached_from(table, item, args, 0);
    if answer is Ok {
        lemma_instance_monomorphic(table.items[item], args);
        match table.cached_from(item, args, 0) {
            Some(k) => {
                assert(table.entry_ok(k));
            },
            None => {
                let n = table.cache.len() as int;
                assert forall|k: int| 0 <= k < after.cache.len() implies #[trigger] after.entry_ok(
                    k,
                ) by {
                    if k < n {
                        assert(table.entry_ok(k));
                    }
                }
                assert forall|k: int, l: int| 0 <= k < l < after.cache.len() implies !(
                #[trigger] after.cache[k]).same_key(#[trigger] after.cache[l]) by {
                    if l < n {
                        assert(!table.cache[k].same_key(table.cache[l]));
                    } else {
                        assert(!table.cached_at(k, item, args));
                    }
                }
            },
        }
    }
}

/// An item that mentions its own parameters only, instantiated with as many
/// concrete arguments as it has parameters, is free of generic parameters.
pub proof fn lemma_instance_monomorphic(item: ItemView, args: Seq<Ty>)
    requires
        item.scoped(),
        args.len() == item.generics.len(),
        all_concrete(args),
    ensures
        item.instantiate(args).monomorphic(),
{
    let out = item.instantiate(args);
    assert forall|i: int| 0 <= i < out.members.len() implies (#[trigger] out.members[i]).concrete() by {
        lemma_subst_concrete(item.members[i], item.generics, args);
    }
    match item.kind {
        KindView::Function(ret) => lemma_subst_concrete(ret, item.generics, args),
        KindView::Aggregate(_) => {},
    }
}

/// Instantiating the same item with equal type arguments a second time is
/// answered with the same cache entry as the first time and changes nothing.
pub proof fn lemma_instantiate_twice(table: TableView, item: int, args: Seq<Ty>)
    requires
        table.wf(),
        0 <= item < table.items.len(),
    ensures
        ({
            let (first, answer) = table.instantiate(item, args);
            let (second, again) = first.instantiate(item, args);
            answer is Ok ==> again == answer && second == first
        }),
{
    let (first, answer) = table.instantiate(item, args);
    lemma_cached_from(table, item, args, 0);
    lemma_cached_from(first, item, args, 0);
    lemma_instantiate(table, item, args);
    if let Ok(id) = answer {
        assert(first.cached_at(id, item, args));
    }
}

impl TableView {
    /// What declaring `item` does to the table and what it answers. An item
    /// that mentions a parameter that is not its own, and an item whose name
    /// and arity are taken, are refused and leave the table as it is. Any
    /// other item is added after the items that are there and is answered
    /// with its position.
    pub open spec fn declare(self, item: ItemView) -> (TableView, Option<int>) {
        if item.scoped() && forall|id: int| !self.keyed(id, item.name, item.generics.len()) {
            (
                TableView { items: self.items.push(item), cache: self.cache },
                Some(self.items.len() as int),
            )
        } else {
            (self, None)
        }
    }
}

/// Declaring an item keeps the table's invariant.
pub proof fn lemma_declare(table: TableView, item: ItemView)
    requires
        table.wf(),
    ensures
        table.declare(item).0.wf(),
{
    let after = table.declare(item).0;
    if after != table {
        let n = table.items.len() as int;
        assert forall|i: int| 0 <= i < after.items.len() implies (#[trigger] after.items[i]).scoped() by {
            if i < n {
                assert(table.items[i].scoped());
            }
        }
        assert forall|i: int, j: int| 0 <= i < j < after.items.len() implies !(
        #[trigger] after.items[i]).same_key(#[trigger] after.items[j]) by {
            if j < n {
                assert(!table.items[i].same_key(table.items[j]));
            } else {
                assert(!table.keyed(i, item.name, item.generics.len()));
            }
        }
        assert forall|k: int| 0 <= k < after.cache.len() implies #[trigger] after.entry_ok(k) by {
            assert(table.entry_ok(k));
        }
        assert forall|k: int, l: int| 0 <= k < l < after.cache.len() implies !(
        #[trigger] after.cache[k]).same_key(#[trigger] after.cache[l]) by {
            assert(!table.cache[k].same_key(table.cache[l]));
        }
    }
}

impl ItemKind {
    /// An independent copy.
    pub fn dup(&self) -> (r: ItemKind)
        ensures
            r@ == self@,
    {
        match self {
            ItemKind::Function(ret) => ItemKind::Function(ret.dup()),
            ItemKind::Aggregate(kind) => ItemKind::Aggregate(*kind),
        }
    }
}

impl Item {
    /// Whether every generic parameter that the item's types mention is one
    /// of its own.
    pub fn is_scoped(&self) -> (r: bool)
        ensures
            r == self@.scoped(),
    {
        let kind_scoped = match &self.kind {
            ItemKind::Function(ret) => ret.is_scoped(&self.generics),
            ItemKind::Aggregate(_) => true,
        };
        kind_scoped && are_scoped(&self.members, &self.generics)
    }

    /// The item with `type_args` in place of its generic parameters.
    pub fn instantiate_with(&self, type_args: Vec<Type>) -> (r: ConcreteItem)
        ensures
            r@ == self@.instantiate(views(type_args@)),
    {
        let members = substitute_all(&self.members, &self.generics, &type_args);
        let kind = match &self.kind {
            ItemKind::Function(ret) => ItemKind::Function(ret.substitute(&self.generics, &type_args)),
            ItemKind::Aggregate(kind) => ItemKind::Aggregate(*kind),
        };
        ConcreteItem { name: self.name, type_args, members, kind }
    }
}

impl ConcreteItem {
    /// The type that an instantiated aggregate declares; nothing for a function.
    pub open spec fn spec_declared_type(view: ConcreteView) -> Option<Ty> {
        match view.kind {
            KindView::Function(_) => None,
            KindView::Aggregate(kind) => Some(Ty::Adt(kind, view.name, view.members)),
        }
    }

    /// The type that an instantiated aggregate declares; nothing for a function.
    pub fn declared_type(&self) -> (r: Option<Type>)
        ensures
            match r {
                Some(ty) => Some(ty@) == Self::spec_declared_type(self@),
                None => Self::spec_declared_type(self@) is None,
            },
    {
        match &self.kind {
            ItemKind::Function(_) => None,
            ItemKind::Aggregate(kind) => {
                let fields = crate::types::dup_all(&self.members);
                let ty = Type::Adt(*kind, self.name, fields);
                assert(ty@->Adt_2 =~= views(self.members@));
                Some(ty)
            },
        }
    }
}

/// The declared items and the cache of their instantiations.
pub struct SymbolTable {
    items: Vec<Item>,
    cache: Vec<Instance>,
}

impl View for SymbolTable {
    type V = TableView;

    closed spec fn view(&self) -> TableView {
        TableView { items: item_views(self.items@), cache: instance_views(self.cache@) }
    }
}

impl SymbolTable {
    /// The table's invariant holds.
    pub open spec fn wf(&self) -> bool {
        self@.wf()
    }

    /// A table without items.
    pub fn new() -> (r: SymbolTable)
        ensures
            r.wf(),
            r@.items.len() == 0,
            r@.cache.len() == 0,
    {
        SymbolTable { items: Vec::new(), cache: Vec::new() }
    }

    /// Number of declared items.
    pub fn item_count(&self) -> (n: usize)
        ensures
            n == self@.items.len(),
    {
        self.items.len()
    }

    /// Number of instantiations in the cache.
    pub fn instance_count(&self) -> (n: usize)
        ensures
            n == self@.cache.len(),
    {
        self.cache.len()
    }

    /// The item that is declared under `name` with `arity` generic
    /// parameters: the first in the order of declaration, which under the
    /// table's invariant is the only one.
    pub fn lookup(&self, name: Symbol, arity: usize) -> (r: Option<usize>)
        ensures
            match r {
                Some(id) => self@.keyed(id as int, name, arity as nat) && forall|j: int|
                    0 <= j < id ==> !self@.keyed(j, name, arity as nat),
                None => forall|j: int| !self@.keyed(j, name, arity as nat),
            },
    {
        let mut i: usize = 0;
        while i < self.items.len()
            invariant
                i <= self.items.len(),
                forall|j: int| 0 <= j < i ==> !self@.keyed(j, name, arity as nat),
            decreases self.items.len() - i,
        {
            if self.items[i].name == name && self.items[i].generics.len() == arity {
                return Some(i);
            }
            i = i + 1;
        }
        None
    }

    /// Declares an item. The answer is the item's position in the table;
    /// nothing for an item that mentions a parameter that is not its own,
    /// and for one whose name and arity are taken.
    pub fn declare(&mut self, item: Item) -> (r: Option<usize>)
        requires
            old(self).wf(),
        ensures
            final(self).wf(),
            final(self)@ == old(self)@.declare(item@).0,
            match r {
                Some(id) => old(self)@.declare(item@).1 == Some(id as int),
                None => old(self)@.declare(item@).1 is None,
            },
    {
        proof {
            lemma_declare(self@, item@);
        }
        if !item.is_scoped() {
            return None;
        }
        if let Some(taken) = self.lookup(item.name, item.generics.len()) {
            assert(self@.keyed(taken as int, item@.name, item@.generics.len()));
            return None;
        }
        let id = self.items.len();
        let ghost before = self@;
        self.items.push(item);
        assert(self@.items =~= before.items.push(item@));
        assert(self@.cache =~= before.cache);
        Some(id)
    }

    /// The declared item at position `id`.
    pub fn item(&self, id: usize) -> (r: &Item)
        requires
            id < self@.items.len(),
        ensures
            r@ == self@.items[id as int],
    {
        &self.items[id]
    }

    /// The instantiation at position `id` of the cache.
    pub fn instance(&self, id: usize) -> (r: &ConcreteItem)
        requires
            id < self@.cache.len(),
        ensures
            r@ == self@.cache[id as int].concrete,
    {
        &self.cache[id].concrete
    }

    /// Position of the cache entry for `item` with `type_args`, if there is one.
    fn find_cached(&self, item: usize, type_args: &Vec<Type>) -> (r: Option<usize>)
        ensures
            match r {
                Some(k) => self@.cached_from(item as int, views(type_args@), 0) == Some(k as int),
                None => self@.cached_from(item as int, views(type_args@), 0) is None,
            },
    {
        let mut k: usize = 0;
        while k < self.cache.len()
            invariant
                k <= self.cache.len(),
                self@.cached_from(item as int, views(type_args@), 0) == self@.cached_from(
                    item as int,
                    views(type_args@),
                    k as int,
                ),
            decreases self.cache.len() - k,
        {
            if self.cache[k].item == item && same_types(&self.cache[k].concrete.type_args, type_args) {
                return Some(k);
            }
            k = k + 1;
        }
        None
    }

    /// Instantiates `item` for a call: with the type arguments written at
    /// the call where there are any, and else with the type arguments that
    /// the types of the call's arguments determine.
    pub fn instantiate_call(
        &mut self,
        item: usize,
        explicit: Option<Vec<Type>>,
        arg_types: &Vec<Type>,
    ) -> (r: Result<usize, CompileError>)
        requires
            old(self).wf(),
            item < old(self)@.items.len(),
        ensures
            final(self).wf(),
            final(self)@ == old(self)@.instantiate_call(
                item as int,
                match explicit {
                    Some(args) => Some(views(args@)),
                    None => None,
                },
                views(arg_types@),
            ).0,
            answers(
                r,
                old(self)@.instantiate_call(
                    item as int,
                    match explicit {
                        Some(args) => Some(views(args@)),
                        None => None,
                    },
                    views(arg_types@),
                ).1,
            ),
            final(self)@.items == old(self)@.items,
            r is Err ==> final(self)@ == old(self)@,
            r matches Ok(id) ==> id < final(self)@.cache.len(),
            r matches Ok(id) ==> final(self)@.cache[id as int].concrete.monomorphic(),
    {
        let type_args = match explicit {
            Some(args) => args,
            None => {
                let decl = &self.items[item];
                assert(decl@ == self@.items[item as int]);
                match infer(&decl.generics, &decl.members, arg_types) {
                    Ok(args) => args,
                    Err(e) => {
                        return Err(e);
                    },
                }
            },
        };
        self.instantiate(item, type_args)
    }

    /// Produces the concrete item for `item` with `type_args`, or retrieves
    /// it from the cache if the same request was made before. The answer is
    /// the position of the concrete item in the cache.
    pub fn instantiate(&mut self, item: usize, type_args: Vec<Type>) -> (r: Result<
        usize,
        CompileError,
    >)
        requires
            old(self).wf(),
            item < old(self)@.items.len(),
        ensures
            final(self).wf(),
            final(self)@ == old(self)@.instantiate(item as int, views(type_args@)).0,
            answers(r, old(self)@.instantiate(item as int, views(type_args@)).1),
            final(self)@.items == old(self)@.items,
            r is Err ==> final(self)@ == old(self)@,
            r matches Ok(id) ==> id < final(self)@.cache.len(),
            r matches Ok(id) ==> final(self)@.cache[id as int].concrete == old(self)@.items[item as int].instantiate(
                views(type_args@),
            ),
            r matches Ok(id) ==> final(self)@.cache[id as int].concrete.monomorphic(),
    {
        proof {
            lemma_instantiate(self@, item as int, views(type_args@));
            lemma_cached_from(self@, item as int, views(type_args@), 0);
            assert(self@.cache.len() == self.cache.len());
        }
        if type_args.len() != self.items[item].generics.len() {
            return Err(CompileError::ArityMismatch);
        }
        if !are_concrete(&type_args) {
            return Err(CompileError::UnresolvedInference);
        }
        match self.find_cached(item, &type_args) {
            Some(k) => Ok(k),
            None => {
                let ghost before = self@;
                let ghost args = views(type_args@);
                let concrete = self.items[item].instantiate_with(type_args);
                let id = self.cache.len();
                self.cache.push(Instance { item, concrete });
                assert(self@.cache.len() == self.cache.len());
                assert(self@.items =~= before.items);
                assert(self@.cache =~= before.cache.push(
                    InstanceView { item: item as int, concrete: before.items[item as int].instantiate(args) },
                ));
                Ok(id)
            },
        }
    }
}

} // verus!
