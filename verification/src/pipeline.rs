//! The order of a compilation: macros are expanded for the whole unit, then
//! generic items are instantiated and indexing is resolved use by use, then
//! built-in operations are lowered. The first failure stops the compilation
//! and is reported with the place at which it occurred.

use crate::error::CompileError;
use crate::generics::{SymbolTable, TableView};
use crate::intrinsics::{lower, lowering, Intrinsic, Lowered};
use crate::macros::{def_views, expand, expansion, DefView, MacroDef, Token};
use crate::resolve::{
    impl_views, index_resolution, resolve_index, ImplRecord, ImplView, IndexPath, LangItems,
};
use crate::types::{views, Symbol, Ty, Type};
use vstd::prelude::*;

verus! {

/// The phases of a compilation, in their order.
#[derive(Clone, Copy, PartialEq, Eq, Structural, Debug)]
pub enum Phase {
    Expansion,
    Resolution,
    Lowering,
}

/// A failure together with the place at which it occurred: the phase, and
/// the position of the offending site among the sites of that phase.
#[derive(Clone, Copy, PartialEq, Eq, Structural, Debug)]
pub struct Diagnostic {
    pub phase: Phase,
    pub site: usize,
    pub error: CompileError,
}

/// An invocation of a macro.
#[derive(Debug)]
pub struct Invocation {
    pub name: Symbol,
    pub tokens: Vec<Token>,
}

/// A use of a declared item or of the indexing operator.
#[derive(Debug)]
pub enum Use {
    /// A call of the item at position `item` of the symbol table, with the
    /// type arguments that are written at the call, if any, and the types
    /// of the arguments that are passed.
    Call { item: usize, type_args: Option<Vec<Type>>, arg_types: Vec<Type> },
    /// An indexing expression, with the types of the collection and of the index.
    Index { receiver: Type, index: Type },
}

/// A call of a built-in operation.
#[derive(Debug)]
pub struct BuiltinCall {
    pub op: Intrinsic,
    pub type_args: Vec<Type>,
    pub value_args: usize,
}

/// What a use resolves to: the position of a concrete item in the
/// instantiation cache, or the path along which an indexing is carried out.
#[derive(Clone, Copy, PartialEq, Eq, Structural, Debug)]
pub enum Resolution {
    Instance(usize),
    Path(IndexPath),
}

/// What a compilation hands on: for each invocation its expansion, for each
/// use what it resolves to, for each built-in call the primitive operation
/// it becomes.
#[derive(Debug)]
pub struct Compiled {
    pub expansions: Vec<Vec<Token>>,
    pub resolutions: Vec<Resolution>,
    pub primitives: Vec<Lowered>,
}

/// The mathematical value of an [`Invocation`].
pub ghost struct InvocationView {
    pub name: Symbol,
    pub tokens: Seq<Token>,
}

/// The mathematical value of a [`Use`].
pub ghost enum UseView {
    Call { item: int, type_args: Option<Seq<Ty>>, arg_types: Seq<Ty> },
    Index { receiver: Ty, index: Ty },
}

/// The mathematical value of a [`BuiltinCall`].
pub ghost struct BuiltinView {
    pub op: Intrinsic,
    pub type_args: Seq<Ty>,
    pub value_args: nat,
}

/// The mathematical value of a [`Compiled`].
pub ghost struct CompiledView {
    pub expansions: Seq<Seq<Token>>,
    pub resolutions: Seq<Resolution>,
    pub primitives: Seq<Lowered>,
}

impl View for Invocation {
    type V = InvocationView;

    open spec fn view(&self) -> InvocationView {
        InvocationView { name: self.name, tokens: self.tokens@ }
    }
}

impl View for Use {
    type V = UseView;

    open spec fn view(&self) -> UseView {
        match self {
            Use::Call { item, type_args, arg_types } => UseView::Call {
                item: *item as int,
                type_args: match type_args {
                    Some(args) => Some(views(args@)),
                    None => None,
                },
                arg_types: views(arg_types@),
            },
            Use::Index { receiver, index } => UseView::Index { receiver: receiver@, index: index@ },
        }
    }
}

impl View for BuiltinCall {
    type V = BuiltinView;

    open spec fn view(&self) -> BuiltinView {
        BuiltinView {
            op: self.op,
            type_args: views(self.type_args@),
            value_args: self.value_args as nat,
        }
    }
}

impl View for Compiled {
    type V = CompiledView;

    open spec fn view(&self) -> CompiledView {
        CompiledView {
            expansions: token_lists(self.expansions@),
            resolutions: self.resolutions@,
            primitives: self.primitives@,
        }
    }
}

/// The views of a list of invocations.
pub open spec fn invocation_views(sites: Seq<Invocation>) -> Seq<InvocationView> {
    Seq::new(sites.len(), |i: int| sites[i]@)
}

/// The views of a list of uses.
pub open spec fn use_views(sites: Seq<Use>) -> Seq<UseView> {
    Seq::new(sites.len(), |i: int| sites[i]@)
}

/// The views of a list of built-in calls.
pub open spec fn builtin_views(sites: Seq<BuiltinCall>) -> Seq<BuiltinView> {
    Seq::new(sites.len(), |i: int| sites[i]@)
}

/// The views of a list of token lists.
pub open spec fn token_lists(lists: Seq<Vec<Token>>) -> Seq<Seq<Token>> {
    Seq::new(lists.len(), |i: int| lists[i]@)
}

/// What the site at position `i` of a phase comes to.
pub open spec fn outcome_at<A>(step: spec_fn(int) -> Result<A, CompileError>, i: int) -> Result<
    A,
    CompileError,
> {
    step(i)
}

/// What the first `k` sites of a phase come to, taken in their order: the
/// outcomes of all of them, or the diagnostic of the first that fails.
pub open spec fn collect<A>(
    step: spec_fn(int) -> Result<A, CompileError>,
    phase: Phase,
    k: nat,
) -> Result<Seq<A>, Diagnostic>
    decreases k,
{
    if k == 0 {
        Ok(Seq::empty())
    } else {
        match collect(step, phase, (k - 1) as nat) {
            Err(d) => Err(d),
            Ok(outs) => match outcome_at(step, k - 1) {
                Ok(out) => Ok(outs.push(out)),
                Err(error) => Err(Diagnostic { phase, site: (k - 1) as usize, error }),
            },
        }
    }
}

/// A phase succeeds exactly when each of its sites does, and then hands on
/// the outcome of each site at the site's position. It fails with the
/// failure of the first site that fails, reported at that site.
pub proof fn lemma_collect<A>(step: spec_fn(int) -> Result<A, CompileError>, phase: Phase, k: nat)
    requires
        k <= usize::MAX,
    ensures
        match collect(step, phase, k) {
            Ok(outs) => outs.len() == k && forall|i: int|
                0 <= i < k ==> #[trigger] outcome_at(step, i) == Ok::<A, CompileError>(outs[i]),
            Err(d) => d.phase == phase && d.site < k && outcome_at(step, d.site as int) == Err::<
                A,
                CompileError,
            >(d.error) && forall|j: int| 0 <= j < d.site ==> (#[trigger] outcome_at(step, j)) is Ok,
        },
    decreases k,
{
    if k > 0 {
        lemma_collect(step, phase, (k - 1) as nat);
    }
}

/// A phase that has failed stays failed, with the same diagnostic, however
/// many more sites there are.
pub proof fn lemma_collect_halts<A>(
    step: spec_fn(int) -> Result<A, CompileError>,
    phase: Phase,
    k: nat,
    n: nat,
)
    requires
        k <= n,
        collect(step, phase, k) is Err,
    ensures
        collect(step, phase, n) == collect(step, phase, k),
    decreases n,
{
    if k < n {
        lemma_collect_halts(step, phase, k, (n - 1) as nat);
    }
}

/// What each invocation is replaced by.
pub open spec fn expansion_steps(defs: Seq<DefView>, sites: Seq<InvocationView>) -> spec_fn(
    int,
) -> Result<Seq<Token>, CompileError> {
    |i: int| expansion(defs, sites[i].name, sites[i].tokens)
}

/// What each built-in call becomes.
pub open spec fn lowering_steps(sites: Seq<BuiltinView>) -> spec_fn(int) -> Result<
    Lowered,
    CompileError,
> {
    |i: int| lowering(sites[i].op, sites[i].type_args, sites[i].value_args)
}

/// What resolving one use does to the symbol table and what the use
/// resolves to. A call instantiates the called item; an indexing expression
/// leaves the table as it is.
pub open spec fn resolve_use(
    lang: LangItems,
    records: Seq<ImplView>,
    table: TableView,
    site: UseView,
) -> (TableView, Result<Resolution, CompileError>) {
    match site {
        UseView::Call { item, type_args, arg_types } => {
            let (after, answer) = table.instantiate_call(item, type_args, arg_types);
            (
                after,
                match answer {
                    Ok(id) => Ok(Resolution::Instance(id as usize)),
                    Err(e) => Err(e),
                },
            )
        },
        UseView::Index { receiver, index } => (
            table,
            match index_resolution(lang, records, receiver, index) {
                Ok(path) => Ok(Resolution::Path(path)),
                Err(e) => Err(e),
            },
        ),
    }
}

/// The symbol table after the first `k` uses were resolved.
pub open spec fn table_after(
    lang: LangItems,
    records: Seq<ImplView>,
    table: TableView,
    sites: Seq<UseView>,
    k: nat,
) -> TableView
    decreases k,
{
    if k == 0 {
        table
    } else {
        resolve_use(lang, records, table_after(lang, records, table, sites, (k - 1) as nat), sites[k - 1]).0
    }
}

/// What each use resolves to, in the symbol table that the uses before it
/// have left.
pub open spec fn resolution_steps(
    lang: LangItems,
    records: Seq<ImplView>,
    table: TableView,
    sites: Seq<UseView>,
) -> spec_fn(int) -> Result<Resolution, CompileError> {
    |i: int| resolve_use(lang, records, table_after(lang, records, table, sites, i as nat), sites[i]).1
}

/// Every call is one of an item of the table.
pub open spec fn calls_declared(table: TableView, sites: Seq<UseView>) -> bool {
    forall|i: int|
        0 <= i < sites.len() ==> ((#[trigger] sites[i]) matches UseView::Call { item, .. } ==> 0 <= item
            < table.items.len())
}

/// What compiling a unit comes to: the outcomes of the three phases, or the
/// diagnostic of the first failure in the order of the phases.
pub open spec fn compilation(
    defs: Seq<DefView>,
    lang: LangItems,
    records: Seq<ImplView>,
    table: TableView,
    invocations: Seq<InvocationView>,
    uses: Seq<UseView>,
    builtins: Seq<BuiltinView>,
) -> Result<CompiledView, Diagnostic> {
    match collect(expansion_steps(defs, invocations), Phase::Expansion, invocations.len()) {
        Err(d) => Err(d),
        Ok(expansions) => match collect(
            resolution_steps(lang, records, table, uses),
            Phase::Resolution,
            uses.len(),
        ) {
            Err(d) => Err(d),
            Ok(resolutions) => match collect(
                lowering_steps(builtins),
                Phase::Lowering,
                builtins.len(),
            ) {
                Err(d) => Err(d),
                Ok(primitives) => Ok(CompiledView { expansions, resolutions, primitives }),
            },
        },
    }
}

/// The symbol table that compiling a unit leaves: the table as it was
/// where the expansion fails, and else the table after the uses that were
/// resolved, which are all of them or those before the first that fails.
pub open spec fn compiled_table(
    defs: Seq<DefView>,
    lang: LangItems,
    records: Seq<ImplView>,
    table: TableView,
    invocations: Seq<InvocationView>,
    uses: Seq<UseView>,
) -> TableView {
    match collect(expansion_steps(defs, invocations), Phase::Expansion, invocations.len()) {
        Err(_) => table,
        Ok(_) => match collect(
            resolution_steps(lang, records, table, uses),
            Phase::Resolution,
            uses.len(),
        ) {
            Err(d) => table_after(lang, records, table, uses, d.site as nat),
            Ok(_) => table_after(lang, records, table, uses, uses.len()),
        },
    }
}

/// Expands every invocation, in order, and stops at the first that fails.
pub fn expand_all(macros: &Vec<MacroDef>, sites: &Vec<Invocation>) -> (r: Result<
    Vec<Vec<Token>>,
    Diagnostic,
>)
    ensures
        match r {
            Ok(outs) => collect(
                expansion_steps(def_views(macros@), invocation_views(sites@)),
                Phase::Expansion,
                sites@.len(),
            ) == Ok::<Seq<Seq<Token>>, Diagnostic>(token_lists(outs@)),
            Err(d) => collect(
                expansion_steps(def_views(macros@), invocation_views(sites@)),
                Phase::Expansion,
                sites@.len(),
            ) == Err::<Seq<Seq<Token>>, Diagnostic>(d),
        },
{
    let ghost step = expansion_steps(def_views(macros@), invocation_views(sites@));
    let mut outs: Vec<Vec<Token>> = Vec::new();
    let mut i: usize = 0;
    assert(token_lists(outs@) =~= Seq::empty());
    while i < sites.len()
        invariant
            step == expansion_steps(def_views(macros@), invocation_views(sites@)),
            i <= sites.len(),
            collect(step, Phase::Expansion, i as nat) == Ok::<Seq<Seq<Token>>, Diagnostic>(
                token_lists(outs@),
            ),
        decreases sites.len() - i,
    {
        let ghost before = token_lists(outs@);
        assert(outcome_at(step, i as int) == expansion(
            def_views(macros@),
            sites@[i as int].name,
            sites@[i as int].tokens@,
        ));
        match expand(macros, sites[i].name, &sites[i].tokens) {
            Ok(tokens) => {
                outs.push(tokens);
                assert(token_lists(outs@) =~= before.push(tokens@));
            },
            Err(error) => {
                proof {
                    lemma_collect_halts(step, Phase::Expansion, (i + 1) as nat, sites@.len());
                }
                return Err(Diagnostic { phase: Phase::Expansion, site: i, error });
            },
        }
        i = i + 1;
    }
    Ok(outs)
}

/// Lowers every built-in call, in order, and stops at the first that fails.
pub fn lower_all(sites: &Vec<BuiltinCall>) -> (r: Result<Vec<Lowered>, Diagnostic>)
    ensures
        match r {
            Ok(outs) => collect(lowering_steps(builtin_views(sites@)), Phase::Lowering, sites@.len())
                == Ok::<Seq<Lowered>, Diagnostic>(outs@),
            Err(d) => collect(lowering_steps(builtin_views(sites@)), Phase::Lowering, sites@.len())
                == Err::<Seq<Lowered>, Diagnostic>(d),
        },
{
    let ghost step = lowering_steps(builtin_views(sites@));
    let mut outs: Vec<Lowered> = Vec::new();
    let mut i: usize = 0;
    assert(outs@ =~= Seq::empty());
    while i < sites.len()
        invariant
            step == lowering_steps(builtin_views(sites@)),
            i <= sites.len(),
            collect(step, Phase::Lowering, i as nat) == Ok::<Seq<Lowered>, Diagnostic>(outs@),
        decreases sites.len() - i,
    {
        assert(outcome_at(step, i as int) == lowering(
            sites@[i as int].op,
            views(sites@[i as int].type_args@),
            sites@[i as int].value_args as nat,
        ));
        match lower(sites[i].op, &sites[i].type_args, sites[i].value_args) {
            Ok(primitive) => {
                outs.push(primitive);
            },
            Err(error) => {
                proof {
                    lemma_collect_halts(step, Phase::Lowering, (i + 1) as nat, sites@.len());
                }
                return Err(Diagnostic { phase: Phase::Lowering, site: i, error });
            },
        }
        i = i + 1;
    }
    Ok(outs)
}

/// Resolves one use.
pub fn resolve_one(lang: &LangItems, impls: &Vec<ImplRecord>, table: &mut SymbolTable, site: &Use) -> (r:
    Result<Resolution, CompileError>)
    requires
        old(table).wf(),
        site@ matches UseView::Call { item, .. } ==> item < old(table)@.items.len(),
    ensures
        final(table).wf(),
        final(table)@.items == old(table)@.items,
        final(table)@ == resolve_use(*lang, impl_views(impls@), old(table)@, site@).0,
        r == resolve_use(*lang, impl_views(impls@), old(table)@, site@).1,
        r is Err ==> final(table)@ == old(table)@,
{
    match site {
        Use::Call { item, type_args, arg_types } => {
            let explicit = match type_args {
                Some(args) => Some(crate::types::dup_all(args)),
                None => None,
            };
            match table.instantiate_call(*item, explicit, arg_types) {
                Ok(id) => Ok(Resolution::Instance(id)),
                Err(e) => Err(e),
            }
        },
        Use::Index { receiver, index } => match resolve_index(lang, impls, receiver, index) {
            Ok(path) => Ok(Resolution::Path(path)),
            Err(e) => Err(e),
        },
    }
}

/// Resolves every use, in order, and stops at the first that fails. Each
/// use is resolved in the symbol table that the uses before it have left.
pub fn resolve_all(
    lang: &LangItems,
    impls: &Vec<ImplRecord>,
    table: &mut SymbolTable,
    sites: &Vec<Use>,
) -> (r: Result<Vec<Resolution>, Diagnostic>)
    requires
        old(table).wf(),
        calls_declared(old(table)@, use_views(sites@)),
    ensures
        final(table).wf(),
        final(table)@.items == old(table)@.items,
        match r {
            Ok(outs) => collect(
                resolution_steps(*lang, impl_views(impls@), old(table)@, use_views(sites@)),
                Phase::Resolution,
                sites@.len(),
            ) == Ok::<Seq<Resolution>, Diagnostic>(outs@) && final(table)@ == table_after(
                *lang,
                impl_views(impls@),
                old(table)@,
                use_views(sites@),
                sites@.len(),
            ),
            Err(d) => collect(
                resolution_steps(*lang, impl_views(impls@), old(table)@, use_views(sites@)),
                Phase::Resolution,
                sites@.len(),
            ) == Err::<Seq<Resolution>, Diagnostic>(d) && final(table)@ == table_after(
                *lang,
                impl_views(impls@),
                old(table)@,
                use_views(sites@),
                d.site as nat,
            ),
        },
{
    let ghost start = table@;
    let ghost records = impl_views(impls@);
    let ghost uses = use_views(sites@);
    let ghost step = resolution_steps(*lang, records, start, uses);
    let mut outs: Vec<Resolution> = Vec::new();
    let mut i: usize = 0;
    assert(outs@ =~= Seq::empty());
    while i < sites.len()
        invariant
            start == old(table)@,
            records == impl_views(impls@),
            uses == use_views(sites@),
            step == resolution_steps(*lang, records, start, uses),
            calls_declared(start, uses),
            table.wf(),
            table@.items == start.items,
            i <= sites.len(),
            table@ == table_after(*lang, records, start, uses, i as nat),
            collect(step, Phase::Resolution, i as nat) == Ok::<Seq<Resolution>, Diagnostic>(outs@),
        decreases sites.len() - i,
    {
        assert(uses[i as int] == sites@[i as int]@);
        assert(outcome_at(step, i as int) == resolve_use(*lang, records, table@, uses[i as int]).1);
        match resolve_one(lang, impls, table, &sites[i]) {
            Ok(resolution) => {
                outs.push(resolution);
            },
            Err(error) => {
                proof {
                    lemma_collect_halts(step, Phase::Resolution, (i + 1) as nat, sites@.len());
                }
                return Err(Diagnostic { phase: Phase::Resolution, site: i, error });
            },
        }
        i = i + 1;
    }
    Ok(outs)
}

/// Compiles a unit: expands its macro invocations, resolves its uses of
/// items and of indexing, and lowers its calls of built-in operations, in
/// this order. The first failure stops the compilation: nothing is handed
/// on, and the diagnostic names the phase and the site of the failure.
pub fn compile(
    macros: &Vec<MacroDef>,
    lang: &LangItems,
    impls: &Vec<ImplRecord>,
    table: &mut SymbolTable,
    invocations: &Vec<Invocation>,
    uses: &Vec<Use>,
    builtins: &Vec<BuiltinCall>,
) -> (r: Result<Compiled, Diagnostic>)
    requires
        old(table).wf(),
        calls_declared(old(table)@, use_views(uses@)),
    ensures
        final(table).wf(),
        final(table)@.items == old(table)@.items,
        match r {
            Ok(c) => compilation(
                def_views(macros@),
                *lang,
                impl_views(impls@),
                old(table)@,
                invocation_views(invocations@),
                use_views(uses@),
                builtin_views(builtins@),
            ) == Ok::<CompiledView, Diagnostic>(c@),
            Err(d) => compilation(
                def_views(macros@),
                *lang,
                impl_views(impls@),
                old(table)@,
                invocation_views(invocations@),
                use_views(uses@),
                builtin_views(builtins@),
            ) == Err::<CompiledView, Diagnostic>(d),
        },
        final(table)@ == compiled_table(
            def_views(macros@),
            *lang,
            impl_views(impls@),
            old(table)@,
            invocation_views(invocations@),
            use_views(uses@),
        ),
{
    let expansions = match expand_all(macros, invocations) {
        Ok(expansions) => expansions,
        Err(d) => {
            return Err(d);
        },
    };
    let resolutions = match resolve_all(lang, impls, table, uses) {
        Ok(resolutions) => resolutions,
        Err(d) => {
            return Err(d);
        },
    };
    let primitives = match lower_all(builtins) {
        Ok(primitives) => primitives,
        Err(d) => {
            return Err(d);
        },
    };
    Ok(Compiled { expansions, resolutions, primitives })
}

} // verus!
