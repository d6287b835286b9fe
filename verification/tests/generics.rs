use frontend_core::error::CompileError;
use frontend_core::generics::{Item, ItemKind, SymbolTable};
use frontend_core::infer::{infer, match_types, unify_into};
use frontend_core::layout::{layout_of, Layout};
use frontend_core::tagged::Foo;
use frontend_core::types::{same_types, AdtKind, Prim, Type};

const T: u32 = 100;
const U: u32 = 101;
const FOO: u32 = 1;
const TEST: u32 = 2;
const PAIR: u32 = 3;

fn prim(p: Prim) -> Type {
    Type::Prim(p)
}

fn param(name: u32) -> Type {
    Type::Param(name)
}

fn ptr(target: Type) -> Type {
    Type::Ptr(Box::new(target), false)
}

fn foo_of(a: Type) -> Type {
    Type::Adt(AdtKind::Struct, FOO, vec![a, prim(Prim::Bool)])
}

/// `struct Foo<T> { a: T, b: bool }`
fn foo_item() -> Item {
    Item {
        name: FOO,
        generics: vec![T],
        members: vec![param(T), prim(Prim::Bool)],
        kind: ItemKind::Aggregate(AdtKind::Struct),
    }
}

/// `fn test<T>(a: T) -> Foo<T>`
fn test_item() -> Item {
    Item {
        name: TEST,
        generics: vec![T],
        members: vec![param(T)],
        kind: ItemKind::Function(foo_of(param(T))),
    }
}

fn table() -> (SymbolTable, usize, usize) {
    let mut t = SymbolTable::new();
    let foo = t.declare(foo_item()).unwrap();
    let test = t.declare(test_item()).unwrap();
    (t, foo, test)
}

#[test]
fn wrapping_a_value_sets_the_flag() {
    let b: Foo<u32> = frontend_core::tagged::test::<u32>(456);
    assert_eq!(b.a, 456u32);
    assert!(b.b);
    let a = frontend_core::tagged::test(123);
    let aa: i32 = a.a;
    assert_eq!(aa, 123);
    assert!(a.b);
}

#[test]
fn the_wrapper_instantiated_at_u32_returns_a_struct_of_u32_and_bool() {
    let (mut t, foo, test) = table();
    let id = t.instantiate(test, vec![prim(Prim::U32)]).unwrap();
    let f = t.instance(id);
    assert_eq!(f.name, TEST);
    assert!(same_types(&f.type_args, &vec![prim(Prim::U32)]));
    assert!(same_types(&f.members, &vec![prim(Prim::U32)]));
    match &f.kind {
        ItemKind::Function(ret) => assert!(ret.same(&foo_of(prim(Prim::U32)))),
        ItemKind::Aggregate(_) => panic!("a function was instantiated"),
    }
    assert!(f.declared_type().is_none());
    let sid = t.instantiate(foo, vec![prim(Prim::U32)]).unwrap();
    let s = t.instance(sid);
    assert!(same_types(&s.members, &vec![prim(Prim::U32), prim(Prim::Bool)]));
    let ty = s.declared_type().unwrap();
    assert!(ty.same(&foo_of(prim(Prim::U32))));
    assert_eq!(layout_of(&ty), Some(Layout { size: 8, align: 4 }));
}

#[test]
fn declared_items_are_found_by_name_and_arity() {
    let (t, foo, test) = table();
    assert_eq!(t.item_count(), 2);
    assert_eq!(t.lookup(FOO, 1), Some(foo));
    assert_eq!(t.lookup(TEST, 1), Some(test));
    assert_eq!(t.lookup(FOO, 0), None);
    assert_eq!(t.lookup(FOO, 2), None);
    assert_eq!(t.lookup(PAIR, 1), None);
    assert_eq!(t.item(foo).name, FOO);
}

#[test]
fn a_name_can_be_declared_again_with_another_arity_only() {
    let (mut t, _, _) = table();
    assert_eq!(t.declare(foo_item()), None);
    assert_eq!(t.item_count(), 2);
    let two = Item {
        name: FOO,
        generics: vec![T, U],
        members: vec![param(T), param(U)],
        kind: ItemKind::Aggregate(AdtKind::Struct),
    };
    assert_eq!(t.declare(two), Some(2));
    assert_eq!(t.lookup(FOO, 2), Some(2));
    assert_eq!(t.lookup(FOO, 1), Some(0));
}

#[test]
fn an_item_must_not_mention_a_parameter_of_another() {
    let mut t = SymbolTable::new();
    let stray = Item {
        name: PAIR,
        generics: vec![T],
        members: vec![param(T), ptr(param(U))],
        kind: ItemKind::Aggregate(AdtKind::Struct),
    };
    assert_eq!(t.declare(stray), None);
    let stray_return = Item {
        name: PAIR,
        generics: vec![T],
        members: vec![param(T)],
        kind: ItemKind::Function(param(U)),
    };
    assert_eq!(t.declare(stray_return), None);
    assert_eq!(t.item_count(), 0);
}

#[test]
fn instantiating_twice_gives_the_same_cached_item() {
    let (mut t, foo, _) = table();
    let first = t.instantiate(foo, vec![prim(Prim::U32)]).unwrap();
    assert_eq!(t.instance_count(), 1);
    let second = t.instantiate(foo, vec![prim(Prim::U32)]).unwrap();
    assert_eq!(first, second);
    assert_eq!(t.instance_count(), 1);
    let other = t.instantiate(foo, vec![prim(Prim::I32)]).unwrap();
    assert_ne!(first, other);
    assert_eq!(t.instance_count(), 2);
    let third = t.instantiate(foo, vec![prim(Prim::U32)]).unwrap();
    assert_eq!(first, third);
    assert_eq!(t.instance_count(), 2);
}

#[test]
fn the_cache_is_keyed_by_item_and_arguments() {
    let (mut t, foo, test) = table();
    let a = t.instantiate(foo, vec![prim(Prim::U32)]).unwrap();
    let b = t.instantiate(test, vec![prim(Prim::U32)]).unwrap();
    assert_ne!(a, b);
    let c = t.instantiate(foo, vec![ptr(prim(Prim::U32))]).unwrap();
    let d = t.instantiate(foo, vec![ptr(prim(Prim::U32))]).unwrap();
    assert_eq!(c, d);
    assert_eq!(t.instance_count(), 3);
}

#[test]
fn a_wrong_number_of_type_arguments_is_an_arity_mismatch() {
    let (mut t, foo, _) = table();
    assert_eq!(t.instantiate(foo, vec![]), Err(CompileError::ArityMismatch));
    assert_eq!(
        t.instantiate(foo, vec![prim(Prim::U8), prim(Prim::U8)]),
        Err(CompileError::ArityMismatch)
    );
    assert_eq!(t.instance_count(), 0);
}

#[test]
fn a_type_argument_that_mentions_a_parameter_is_unresolved() {
    let (mut t, foo, _) = table();
    assert_eq!(t.instantiate(foo, vec![param(U)]), Err(CompileError::UnresolvedInference));
    assert_eq!(t.instantiate(foo, vec![ptr(param(T))]), Err(CompileError::UnresolvedInference));
    assert_eq!(t.instance_count(), 0);
}

#[test]
fn an_item_without_parameters_is_instantiated_with_no_arguments() {
    let mut t = SymbolTable::new();
    let plain = Item {
        name: PAIR,
        generics: vec![],
        members: vec![prim(Prim::U8), prim(Prim::U8)],
        kind: ItemKind::Aggregate(AdtKind::Struct),
    };
    let id = t.declare(plain).unwrap();
    let a = t.instantiate(id, vec![]).unwrap();
    assert!(same_types(&t.instance(a).members, &vec![prim(Prim::U8), prim(Prim::U8)]));
    assert_eq!(t.instantiate(id, vec![prim(Prim::U8)]), Err(CompileError::ArityMismatch));
}

#[test]
fn type_arguments_are_inferred_from_the_arguments_of_the_call() {
    let (mut t, _, test) = table();
    let inferred = t.instantiate_call(test, None, &vec![prim(Prim::I32)]).unwrap();
    let explicit = t.instantiate_call(test, Some(vec![prim(Prim::I32)]), &vec![prim(Prim::I32)]).unwrap();
    assert_eq!(inferred, explicit);
    assert!(same_types(&t.instance(inferred).type_args, &vec![prim(Prim::I32)]));
    let other = t.instantiate_call(test, Some(vec![prim(Prim::U32)]), &vec![prim(Prim::U32)]).unwrap();
    assert_ne!(inferred, other);
}

#[test]
fn a_call_with_the_wrong_number_of_arguments_cannot_be_inferred() {
    let (mut t, _, test) = table();
    assert_eq!(t.instantiate_call(test, None, &vec![]), Err(CompileError::ArityMismatch));
    assert_eq!(
        t.instantiate_call(test, None, &vec![prim(Prim::U8), prim(Prim::U8)]),
        Err(CompileError::ArityMismatch)
    );
}

#[test]
fn a_parameter_that_no_argument_mentions_is_unresolved() {
    let mut t = SymbolTable::new();
    let f = Item {
        name: TEST,
        generics: vec![T, U],
        members: vec![param(T)],
        kind: ItemKind::Function(param(U)),
    };
    let id = t.declare(f).unwrap();
    assert_eq!(
        t.instantiate_call(id, None, &vec![prim(Prim::U8)]),
        Err(CompileError::UnresolvedInference)
    );
    let given = t.instantiate_call(id, Some(vec![prim(Prim::U8), prim(Prim::Bool)]), &vec![prim(Prim::U8)]);
    assert_eq!(given, Ok(0));
}

#[test]
fn inference_looks_into_the_structure_of_types() {
    let generics = vec![T, U];
    let params = vec![ptr(param(T)), Type::Array(Box::new(foo_of(param(U))), 3)];
    let args = vec![ptr(prim(Prim::U16)), Type::Array(Box::new(foo_of(ptr(prim(Prim::Str)))), 3)];
    let got = infer(&generics, &params, &args).unwrap();
    assert!(same_types(&got, &vec![prim(Prim::U16), ptr(prim(Prim::Str))]));
}

#[test]
fn inference_fails_on_types_of_another_shape() {
    let generics = vec![T];
    assert_eq!(
        infer(&generics, &vec![ptr(param(T))], &vec![prim(Prim::U16)]).err(),
        Some(CompileError::UnresolvedInference)
    );
    assert_eq!(
        infer(&generics, &vec![Type::Array(Box::new(param(T)), 3)], &vec![Type::Array(Box::new(prim(Prim::U8)), 4)]).err(),
        Some(CompileError::UnresolvedInference)
    );
    assert_eq!(
        infer(&generics, &vec![foo_of(param(T))], &vec![Type::Adt(AdtKind::Struct, PAIR, vec![prim(Prim::U8), prim(Prim::Bool)])]).err(),
        Some(CompileError::UnresolvedInference)
    );
}

#[test]
fn inference_fails_where_two_arguments_disagree() {
    let generics = vec![T];
    let params = vec![param(T), param(T)];
    assert_eq!(
        infer(&generics, &params, &vec![prim(Prim::U8), prim(Prim::U16)]).err(),
        Some(CompileError::UnresolvedInference)
    );
    let agreed = infer(&generics, &params, &vec![prim(Prim::U8), prim(Prim::U8)]).unwrap();
    assert!(same_types(&agreed, &vec![prim(Prim::U8)]));
}

#[test]
fn inference_of_no_parameters_checks_the_argument_types() {
    let none: Vec<u32> = vec![];
    let got = infer(&none, &vec![prim(Prim::U8)], &vec![prim(Prim::U8)]).unwrap();
    assert!(got.is_empty());
    assert_eq!(
        infer(&none, &vec![prim(Prim::U8)], &vec![prim(Prim::U16)]).err(),
        Some(CompileError::UnresolvedInference)
    );
    assert_eq!(
        infer(&none, &vec![prim(Prim::U8)], &vec![]).err(),
        Some(CompileError::ArityMismatch)
    );
}

#[test]
fn matching_binds_each_parameter_once() {
    let generics = vec![T, U];
    let bound = match_types(&generics, &vec![ptr(param(T))], &vec![ptr(prim(Prim::I8))]).unwrap();
    assert_eq!(bound.len(), 2);
    assert!(bound[0].as_ref().unwrap().same(&prim(Prim::I8)));
    assert!(bound[1].is_none());
    assert!(match_types(&generics, &vec![ptr(param(T))], &vec![prim(Prim::I8)]).is_none());
    assert!(match_types(&generics, &vec![param(T)], &vec![]).is_none());
    let mut bindings: Vec<Option<Type>> = vec![None, None];
    assert!(unify_into(&param(U), &prim(Prim::Bool), &generics, &mut bindings));
    assert!(bindings[0].is_none());
    assert!(bindings[1].as_ref().unwrap().same(&prim(Prim::Bool)));
    assert!(!unify_into(&param(U), &prim(Prim::U8), &generics, &mut bindings));
    assert!(unify_into(&param(U), &prim(Prim::Bool), &generics, &mut bindings));
}
