use frontend_core::error::CompileError;
use frontend_core::resolve::{
    has_method, resolve_index, resolve_method, select, Found, ImplRecord, IndexPath, LangItems,
    Scope,
};
use frontend_core::types::{AdtKind, Prim, Type};

const T: u32 = 100;
const RANGE: u32 = 10;
const RANGE_FROM: u32 = 11;
const SLICE_INDEX: u32 = 20;
const INDEX: u32 = 30;
const GET: u32 = 31;
const LEN: u32 = 32;
const AS_PTR: u32 = 33;
const ADD: u32 = 34;
const SHOW: u32 = 40;

fn lang() -> LangItems {
    LangItems { range: RANGE, slice_index: SLICE_INDEX, index_method: INDEX }
}

fn prim(p: Prim) -> Type {
    Type::Prim(p)
}

fn param(name: u32) -> Type {
    Type::Param(name)
}

fn slice(elem: Type) -> Type {
    Type::Slice(Box::new(elem))
}

fn ptr(target: Type) -> Type {
    Type::Ptr(Box::new(target), false)
}

fn range_of(bound: Type) -> Type {
    Type::Adt(AdtKind::Struct, RANGE, vec![bound.dup(), bound])
}

fn range_from() -> Type {
    Type::Adt(AdtKind::Struct, RANGE_FROM, vec![prim(Prim::Usize)])
}

/// `impl<T> SliceIndex<[T]> for RangeFrom<usize>`
fn range_from_impl() -> ImplRecord {
    ImplRecord {
        trait_name: Some(SLICE_INDEX),
        generics: vec![T],
        self_type: range_from(),
        trait_args: vec![slice(param(T))],
        methods: vec![GET, INDEX],
    }
}

/// `impl<T> *const [T] { len, as_ptr }` and `impl<T> *const T { add, as_ptr }`
fn pointer_impls() -> Vec<ImplRecord> {
    vec![
        ImplRecord {
            trait_name: None,
            generics: vec![T],
            self_type: ptr(slice(param(T))),
            trait_args: vec![],
            methods: vec![LEN, AS_PTR],
        },
        ImplRecord {
            trait_name: None,
            generics: vec![],
            self_type: ptr(prim(Prim::I32)),
            trait_args: vec![],
            methods: vec![ADD, AS_PTR],
        },
    ]
}

#[test]
fn a_scalar_index_selects_an_element() {
    let records = vec![];
    let array = Type::Array(Box::new(prim(Prim::I32)), 5);
    assert_eq!(resolve_index(&lang(), &records, &array, &prim(Prim::Usize)), Ok(IndexPath::Element));
    assert_eq!(
        resolve_index(&lang(), &records, &slice(prim(Prim::I32)), &prim(Prim::Usize)),
        Ok(IndexPath::Element)
    );
    let sized = Type::ArrayOfSize(Box::new(prim(Prim::U8)), Box::new(prim(Prim::I32)));
    assert_eq!(resolve_index(&lang(), &records, &sized, &prim(Prim::Usize)), Ok(IndexPath::Element));
}

#[test]
fn a_range_of_scalars_selects_a_narrower_sequence() {
    let records = vec![];
    let array = Type::Array(Box::new(prim(Prim::I32)), 5);
    assert_eq!(
        resolve_index(&lang(), &records, &array, &range_of(prim(Prim::Usize))),
        Ok(IndexPath::SubSequence)
    );
    assert_eq!(
        resolve_index(&lang(), &records, &slice(prim(Prim::U8)), &range_of(prim(Prim::Usize))),
        Ok(IndexPath::SubSequence)
    );
}

#[test]
fn dispatch_goes_by_the_type_of_the_index() {
    let records = vec![range_from_impl()];
    let receiver = slice(prim(Prim::I32));
    assert_eq!(resolve_index(&lang(), &records, &receiver, &prim(Prim::Usize)), Ok(IndexPath::Element));
    assert_eq!(
        resolve_index(&lang(), &records, &receiver, &range_of(prim(Prim::Usize))),
        Ok(IndexPath::SubSequence)
    );
    assert_eq!(resolve_index(&lang(), &records, &receiver, &range_from()), Ok(IndexPath::Method(0)));
}

#[test]
fn an_index_type_without_implementation_is_refused() {
    let receiver = slice(prim(Prim::I32));
    let none = vec![];
    assert_eq!(
        resolve_index(&lang(), &none, &receiver, &range_from()),
        Err(CompileError::NoMatchingTraitImpl)
    );
    assert_eq!(
        resolve_index(&lang(), &none, &receiver, &prim(Prim::U32)),
        Err(CompileError::NoMatchingTraitImpl)
    );
    assert_eq!(
        resolve_index(&lang(), &none, &receiver, &range_of(prim(Prim::U32))),
        Err(CompileError::NoMatchingTraitImpl)
    );
}

#[test]
fn only_contiguous_sequences_are_indexed() {
    let records = vec![range_from_impl()];
    assert_eq!(
        resolve_index(&lang(), &records, &prim(Prim::I32), &prim(Prim::Usize)),
        Err(CompileError::NoMatchingTraitImpl)
    );
    assert_eq!(
        resolve_index(&lang(), &records, &ptr(slice(prim(Prim::I32))), &prim(Prim::Usize)),
        Err(CompileError::NoMatchingTraitImpl)
    );
    assert_eq!(
        resolve_index(&lang(), &records, &param(T), &range_from()),
        Err(CompileError::NoMatchingTraitImpl)
    );
}

#[test]
fn an_implementation_needs_the_index_method_and_the_trait() {
    let receiver = slice(prim(Prim::I32));
    let mut without_method = range_from_impl();
    without_method.methods = vec![GET];
    assert_eq!(
        resolve_index(&lang(), &vec![without_method], &receiver, &range_from()),
        Err(CompileError::NoMatchingTraitImpl)
    );
    let mut other_trait = range_from_impl();
    other_trait.trait_name = Some(SLICE_INDEX + 1);
    assert_eq!(
        resolve_index(&lang(), &vec![other_trait], &receiver, &range_from()),
        Err(CompileError::NoMatchingTraitImpl)
    );
    let mut inherent = range_from_impl();
    inherent.trait_name = None;
    assert_eq!(
        resolve_index(&lang(), &vec![inherent], &receiver, &range_from()),
        Err(CompileError::NoMatchingTraitImpl)
    );
    let mut for_bytes = range_from_impl();
    for_bytes.trait_args = vec![slice(prim(Prim::U8))];
    assert_eq!(
        resolve_index(&lang(), &vec![for_bytes], &receiver, &range_from()),
        Err(CompileError::NoMatchingTraitImpl)
    );
}

#[test]
fn two_implementations_for_one_index_type_are_refused() {
    let receiver = slice(prim(Prim::I32));
    let records = vec![range_from_impl(), range_from_impl()];
    assert_eq!(
        resolve_index(&lang(), &records, &receiver, &range_from()),
        Err(CompileError::NoMatchingTraitImpl)
    );
    assert_eq!(
        select(&records, Scope::Trait(SLICE_INDEX), &range_from(), &vec![slice(prim(Prim::I32))], INDEX),
        Found::Many
    );
}

#[test]
fn methods_are_found_on_the_shape_of_the_receiver() {
    let records = pointer_impls();
    let slice_ptr = ptr(slice(prim(Prim::I32)));
    let thin_ptr = ptr(prim(Prim::I32));
    assert_eq!(resolve_method(&records, &slice_ptr, LEN), Ok(0));
    assert_eq!(resolve_method(&records, &slice_ptr, AS_PTR), Ok(0));
    assert_eq!(resolve_method(&records, &thin_ptr, ADD), Ok(1));
    assert_eq!(resolve_method(&records, &thin_ptr, AS_PTR), Ok(1));
    assert_eq!(resolve_method(&records, &thin_ptr, LEN), Err(CompileError::NoMatchingTraitImpl));
    assert_eq!(resolve_method(&records, &slice_ptr, ADD), Err(CompileError::NoMatchingTraitImpl));
    assert_eq!(resolve_method(&records, &prim(Prim::I32), LEN), Err(CompileError::NoMatchingTraitImpl));
}

#[test]
fn inherent_methods_take_precedence_over_trait_methods() {
    let of_trait = ImplRecord {
        trait_name: Some(SHOW),
        generics: vec![T],
        self_type: param(T),
        trait_args: vec![],
        methods: vec![LEN, SHOW],
    };
    let mut records = vec![of_trait];
    records.append(&mut pointer_impls());
    let slice_ptr = ptr(slice(prim(Prim::I32)));
    assert_eq!(resolve_method(&records, &slice_ptr, LEN), Ok(1));
    assert_eq!(resolve_method(&records, &slice_ptr, SHOW), Ok(0));
    assert_eq!(resolve_method(&records, &prim(Prim::Bool), LEN), Ok(0));
}

#[test]
fn an_ambiguous_method_is_refused() {
    let mut records = pointer_impls();
    records.append(&mut pointer_impls());
    let slice_ptr = ptr(slice(prim(Prim::I32)));
    assert_eq!(resolve_method(&records, &slice_ptr, LEN), Err(CompileError::NoMatchingTraitImpl));
    assert_eq!(select(&records, Scope::Inherent, &slice_ptr, &vec![], LEN), Found::Many);
    assert_eq!(select(&records, Scope::AnyTrait, &slice_ptr, &vec![], LEN), Found::Nothing);
}

#[test]
fn a_record_answers_within_its_scope_only() {
    let record = range_from_impl();
    let args = vec![slice(prim(Prim::I32))];
    assert!(record.answers(Scope::Trait(SLICE_INDEX), &range_from(), &args, INDEX));
    assert!(record.answers(Scope::AnyTrait, &range_from(), &vec![], INDEX));
    assert!(!record.answers(Scope::Inherent, &range_from(), &vec![], INDEX));
    assert!(!record.answers(Scope::Trait(SLICE_INDEX), &range_from(), &vec![], INDEX));
    assert!(!record.answers(Scope::Trait(SLICE_INDEX), &range_from(), &args, LEN));
    assert!(has_method(&record.methods, GET));
    assert!(!has_method(&record.methods, LEN));
}
