use frontend_core::error::CompileError;
use frontend_core::generics::{Item, ItemKind, SymbolTable};
use frontend_core::intrinsics::{Intrinsic, Lowered};
use frontend_core::macros::{Delim, MacroDef, Piece, Rule, Token};
use frontend_core::pipeline::{
    compile, expand_all, lower_all, resolve_all, resolve_one, BuiltinCall, Diagnostic, Invocation,
    Phase, Resolution, Use,
};
use frontend_core::resolve::{ImplRecord, IndexPath, LangItems};
use frontend_core::types::{AdtKind, Prim, Type};

const T: u32 = 100;
const FOO: u32 = 1;
const CONCAT: u32 = 2;
const ONE: u32 = 3;
const RANGE: u32 = 10;
const SLICE_INDEX: u32 = 20;
const INDEX: u32 = 30;

fn lang() -> LangItems {
    LangItems { range: RANGE, slice_index: SLICE_INDEX, index_method: INDEX }
}

fn prim(p: Prim) -> Type {
    Type::Prim(p)
}

fn macros() -> Vec<MacroDef> {
    vec![
        MacroDef {
            name: CONCAT,
            rules: vec![Rule {
                pattern: vec![],
                expansion: vec![
                    Piece::Token(Token::Open(Delim::Brace)),
                    Piece::Token(Token::Close(Delim::Brace)),
                ],
            }],
        },
        MacroDef {
            name: ONE,
            rules: vec![Rule { pattern: vec![], expansion: vec![Piece::Token(Token::Int(1))] }],
        },
    ]
}

fn table() -> SymbolTable {
    let mut t = SymbolTable::new();
    t.declare(Item {
        name: FOO,
        generics: vec![T],
        members: vec![Type::Param(T), prim(Prim::Bool)],
        kind: ItemKind::Aggregate(AdtKind::Struct),
    });
    t
}

fn call(type_arg: Prim) -> Use {
    Use::Call { item: 0, type_args: Some(vec![prim(type_arg)]), arg_types: vec![prim(type_arg), prim(Prim::Bool)] }
}

fn bad_call() -> Use {
    Use::Call { item: 0, type_args: Some(vec![]), arg_types: vec![] }
}

fn index(index: Type) -> Use {
    Use::Index { receiver: Type::Array(Box::new(prim(Prim::I32)), 5), index }
}

fn size_of(ty: Type) -> BuiltinCall {
    BuiltinCall { op: Intrinsic::SizeOf, type_args: vec![ty], value_args: 0 }
}

fn invoke(name: u32, tokens: Vec<Token>) -> Invocation {
    Invocation { name, tokens }
}

#[test]
fn a_unit_without_sites_compiles_to_nothing() {
    let mut t = table();
    let c = compile(&macros(), &lang(), &vec![], &mut t, &vec![], &vec![], &vec![]).unwrap();
    assert!(c.expansions.is_empty());
    assert!(c.resolutions.is_empty());
    assert!(c.primitives.is_empty());
    assert_eq!(t.instance_count(), 0);
}

#[test]
fn every_site_gets_its_outcome_at_its_position() {
    let mut t = table();
    let impls: Vec<ImplRecord> = vec![];
    let invocations = vec![invoke(ONE, vec![]), invoke(CONCAT, vec![Token::Str(7)])];
    let uses = vec![call(Prim::U32), index(prim(Prim::Usize)), call(Prim::I32), call(Prim::U32)];
    let builtins = vec![
        size_of(prim(Prim::I32)),
        BuiltinCall { op: Intrinsic::Transmute, type_args: vec![prim(Prim::U64), prim(Prim::I64)], value_args: 1 },
        BuiltinCall { op: Intrinsic::Offset, type_args: vec![prim(Prim::U16)], value_args: 2 },
    ];
    let c = compile(&macros(), &lang(), &impls, &mut t, &invocations, &uses, &builtins).unwrap();
    assert_eq!(
        c.expansions,
        vec![vec![Token::Int(1)], vec![Token::Open(Delim::Brace), Token::Close(Delim::Brace)]]
    );
    assert_eq!(
        c.resolutions,
        vec![
            Resolution::Instance(0),
            Resolution::Path(IndexPath::Element),
            Resolution::Instance(1),
            Resolution::Instance(0),
        ]
    );
    assert_eq!(c.primitives, vec![Lowered::Constant(4), Lowered::Reinterpret(8), Lowered::Advance(2)]);
    assert_eq!(t.instance_count(), 2);
}

#[test]
fn the_first_failing_invocation_is_reported() {
    let sites = vec![
        invoke(ONE, vec![]),
        invoke(ONE, vec![Token::Int(1)]),
        invoke(CONCAT + 40, vec![]),
    ];
    assert_eq!(
        expand_all(&macros(), &sites),
        Err(Diagnostic { phase: Phase::Expansion, site: 1, error: CompileError::NoMatchingRule })
    );
    let sites = vec![invoke(ONE, vec![]), invoke(CONCAT + 40, vec![]), invoke(ONE, vec![Token::Int(1)])];
    assert_eq!(
        expand_all(&macros(), &sites),
        Err(Diagnostic { phase: Phase::Expansion, site: 1, error: CompileError::UnknownMacro })
    );
}

#[test]
fn a_failed_expansion_stops_before_anything_is_instantiated() {
    let mut t = table();
    let r = compile(
        &macros(),
        &lang(),
        &vec![],
        &mut t,
        &vec![invoke(CONCAT + 40, vec![])],
        &vec![call(Prim::U32), bad_call()],
        &vec![size_of(Type::Param(T))],
    );
    assert_eq!(
        r.err(),
        Some(Diagnostic { phase: Phase::Expansion, site: 0, error: CompileError::UnknownMacro })
    );
    assert_eq!(t.instance_count(), 0);
}

#[test]
fn the_first_failing_use_is_reported_and_stops_the_resolution() {
    let mut t = table();
    let uses = vec![call(Prim::U32), call(Prim::U8), bad_call(), call(Prim::I64), index(prim(Prim::Bool))];
    let r = compile(&macros(), &lang(), &vec![], &mut t, &vec![invoke(ONE, vec![])], &uses, &vec![size_of(Type::Param(T))]);
    assert_eq!(
        r.err(),
        Some(Diagnostic { phase: Phase::Resolution, site: 2, error: CompileError::ArityMismatch })
    );
    assert_eq!(t.instance_count(), 2);
    let mut t = table();
    let uses = vec![index(prim(Prim::Bool)), call(Prim::U32)];
    assert_eq!(
        resolve_all(&lang(), &vec![], &mut t, &uses),
        Err(Diagnostic { phase: Phase::Resolution, site: 0, error: CompileError::NoMatchingTraitImpl })
    );
    assert_eq!(t.instance_count(), 0);
}

#[test]
fn the_first_failing_built_in_call_is_reported() {
    let mut t = table();
    let builtins = vec![
        size_of(prim(Prim::U8)),
        BuiltinCall { op: Intrinsic::Transmute, type_args: vec![prim(Prim::U8), prim(Prim::U16)], value_args: 1 },
        size_of(Type::Param(T)),
    ];
    let r = compile(&macros(), &lang(), &vec![], &mut t, &vec![], &vec![call(Prim::U32)], &builtins);
    assert_eq!(
        r.err(),
        Some(Diagnostic { phase: Phase::Lowering, site: 1, error: CompileError::SizeMismatch })
    );
    assert_eq!(t.instance_count(), 1);
    assert_eq!(
        lower_all(&vec![size_of(Type::Param(T)), size_of(prim(Prim::U8))]),
        Err(Diagnostic { phase: Phase::Lowering, site: 0, error: CompileError::UnresolvedInference })
    );
    assert_eq!(lower_all(&vec![size_of(prim(Prim::U64)), size_of(prim(Prim::U8))]), Ok(vec![
        Lowered::Constant(8),
        Lowered::Constant(1)
    ]));
}

#[test]
fn one_use_is_resolved_in_the_table_as_it_stands() {
    let mut t = table();
    assert_eq!(resolve_one(&lang(), &vec![], &mut t, &call(Prim::U32)), Ok(Resolution::Instance(0)));
    assert_eq!(resolve_one(&lang(), &vec![], &mut t, &call(Prim::U32)), Ok(Resolution::Instance(0)));
    assert_eq!(resolve_one(&lang(), &vec![], &mut t, &bad_call()), Err(CompileError::ArityMismatch));
    let inferred = Use::Call { item: 0, type_args: None, arg_types: vec![prim(Prim::U32), prim(Prim::Bool)] };
    assert_eq!(resolve_one(&lang(), &vec![], &mut t, &inferred), Ok(Resolution::Instance(0)));
    let range = Type::Adt(AdtKind::Struct, RANGE, vec![prim(Prim::Usize), prim(Prim::Usize)]);
    assert_eq!(
        resolve_one(&lang(), &vec![], &mut t, &index(range)),
        Ok(Resolution::Path(IndexPath::SubSequence))
    );
    assert_eq!(t.instance_count(), 1);
}
