use frontend_core::index::{Index, Option, Range, SliceIndex};
use frontend_core::memory::Storage;
use frontend_core::ptr::{offset, slice_from_raw_parts, ConstPtr, FatPtr, Repr};

fn five() -> Storage<i32> {
    Storage::new(0x1000, 4, vec![1, 2, 3, 4, 5]).unwrap()
}

#[test]
fn offset_advances_by_elements_of_the_pointee_size() {
    let p = ConstPtr { addr: 0x1000, stride: 4 };
    let q = offset(p, 3);
    assert_eq!(q, ConstPtr { addr: 0x100c, stride: 4 });
}

#[test]
fn offset_moves_backwards_for_a_negative_count() {
    let p = ConstPtr { addr: 0x1000, stride: 8 };
    assert_eq!(offset(p, -2).addr, 0x0ff0);
    assert_eq!(p.offset(-2).addr, 0x0ff0);
}

#[test]
fn offset_by_zero_is_the_same_pointer() {
    let p = ConstPtr { addr: 77, stride: 16 };
    assert_eq!(offset(p, 0), p);
}

#[test]
fn add_is_offset_by_a_count_that_is_not_negative() {
    let p = ConstPtr { addr: 0x2000, stride: 2 };
    assert_eq!(p.add(5), p.offset(5));
    assert_eq!(p.add(5).addr, 0x200a);
}

#[test]
fn pointer_to_a_value_of_no_size_does_not_move() {
    let p = ConstPtr { addr: 9, stride: 0 };
    assert_eq!(p.add(1000).addr, 9);
}

#[test]
fn thin_pointer_is_its_own_first_element() {
    let p = ConstPtr { addr: 5, stride: 1 };
    assert_eq!(p.as_ptr(), p);
}

#[test]
fn sequence_pointer_is_made_of_its_parts() {
    let data = ConstPtr { addr: 0x4000, stride: 4 };
    let s = slice_from_raw_parts(data, 7);
    assert_eq!(s.len(), 7);
    assert_eq!(s.as_ptr(), data);
}

#[test]
fn the_overlay_reads_back_what_was_written_in_another_form() {
    let raw = FatPtr { data: ConstPtr { addr: 0x10, stride: 2 }, len: 3 };
    let p = Repr::from_raw(raw).rust();
    assert_eq!(Repr::from_rust(p).raw(), raw);
    let m = Repr::from_raw(raw).rust_mut();
    assert_eq!(m.len(), 3);
    assert_eq!(m.as_ptr(), raw.data);
}

#[test]
fn storage_spans_all_its_elements() {
    let a = five();
    assert_eq!(a.len(), 5);
    let s = a.as_slice();
    assert_eq!(s.len(), 5);
    assert_eq!(s.as_ptr(), ConstPtr { addr: 0x1000, stride: 4 });
}

#[test]
fn storage_needs_elements_with_a_size() {
    assert!(Storage::new(0x1000, 0, vec![1u8, 2, 3]).is_none());
}

#[test]
fn storage_must_end_within_the_address_space() {
    assert!(Storage::new(usize::MAX - 3, 4, vec![1i32]).is_none());
    assert!(Storage::new(usize::MAX - 4, 4, vec![1i32]).is_some());
    assert!(Storage::new(usize::MAX, 1, Vec::<u8>::new()).is_some());
}

#[test]
fn load_reads_the_element_at_the_address() {
    let a = five();
    assert_eq!(a.load(ConstPtr { addr: 0x1000, stride: 4 }), Some(&1));
    assert_eq!(a.load(ConstPtr { addr: 0x1008, stride: 4 }), Some(&3));
    assert_eq!(a.load(ConstPtr { addr: 0x1010, stride: 4 }), Some(&5));
}

#[test]
fn load_refuses_what_is_no_element() {
    let a = five();
    assert_eq!(a.load(ConstPtr { addr: 0x1014, stride: 4 }), None);
    assert_eq!(a.load(ConstPtr { addr: 0x0ffc, stride: 4 }), None);
    assert_eq!(a.load(ConstPtr { addr: 0x1002, stride: 4 }), None);
    assert_eq!(a.load(ConstPtr { addr: 0x1000, stride: 2 }), None);
}

#[test]
fn scalar_get_succeeds_exactly_below_the_length() {
    let a = five();
    let s = a.as_slice();
    for i in 0..5usize {
        match i.get(&s) {
            Option::Something(p) => {
                assert_eq!(p.addr, 0x1000 + 4 * i);
                assert_eq!(a.load(p), Some(&(i as i32 + 1)));
            }
            Option::Nothing => panic!("index {} is within the sequence", i),
        }
    }
    assert!(matches!(5usize.get(&s), Option::Nothing));
    assert!(matches!(6usize.get(&s), Option::Nothing));
    assert!(matches!(usize::MAX.get(&s), Option::Nothing));
}

#[test]
fn scalar_get_on_an_empty_sequence_is_nothing() {
    let s = slice_from_raw_parts(ConstPtr { addr: 0x1000, stride: 4 }, 0);
    assert!(matches!(0usize.get(&s), Option::Nothing));
}

#[test]
fn scalar_index_leads_to_the_element() {
    let a = five();
    let s = a.as_slice();
    assert_eq!(a.load(3usize.index(&s)), Some(&4));
    assert_eq!(a.load(3usize.get_unchecked(s)), Some(&4));
    assert_eq!(a.load(Index::index(&s, 0usize)), Some(&1));
}

#[test]
fn range_get_is_nothing_exactly_when_start_is_after_end() {
    let a = five();
    let s = a.as_slice();
    assert!(matches!(Range { start: 3usize, end: 1usize }.get(&s), Option::Nothing));
    assert!(matches!(Range { start: 1usize, end: 0usize }.get(&s), Option::Nothing));
    assert!(matches!(Range { start: 1usize, end: 3usize }.get(&s), Option::Something(_)));
    assert!(matches!(Range { start: 2usize, end: 2usize }.get(&s), Option::Something(_)));
    assert!(matches!(Range { start: 0usize, end: 5usize }.get(&s), Option::Something(_)));
}

#[test]
fn range_get_does_not_check_the_end_against_the_length() {
    let a = five();
    let s = a.as_slice();
    match (Range { start: 1usize, end: 9usize }).get(&s) {
        Option::Something(b) => {
            assert_eq!(b.len(), 8);
            assert_eq!(b.as_ptr().addr, 0x1004);
        }
        Option::Nothing => panic!("the range starts before its end"),
    }
}

#[test]
fn range_selects_a_sequence_of_end_minus_start_elements() {
    let a = five();
    let s = a.as_slice();
    match (Range { start: 1usize, end: 3usize }).get(&s) {
        Option::Something(b) => {
            assert_eq!(b.len(), 2);
            assert_eq!(b.as_ptr(), ConstPtr { addr: 0x1004, stride: 4 });
        }
        Option::Nothing => panic!("the range starts before its end"),
    }
    let empty = Range { start: 4usize, end: 4usize }.index(&s);
    assert_eq!(empty.len(), 0);
}

#[test]
fn elements_of_a_selected_range_alias_the_storage() {
    let a = five();
    let s = a.as_slice();
    let b = Range { start: 1usize, end: 4usize }.index(&s);
    for k in 0..3usize {
        assert_eq!(k.index(&b), (1 + k).index(&s));
    }
}

#[test]
fn second_element_of_the_range_one_to_three_is_three() {
    let a = five();
    let b = Index::index(&a.as_slice(), Range { start: 1usize, end: 3usize });
    let c = Index::index(&b, 1usize);
    assert_eq!(a.load(c), Some(&3));
}

#[test]
fn range_of_a_range_narrows_again() {
    let a = five();
    let s = a.as_slice();
    let b = Range { start: 1usize, end: 5usize }.get_unchecked(s);
    let c = Range { start: 2usize, end: 3usize }.get_unchecked(b);
    assert_eq!(c.len(), 1);
    assert_eq!(a.load(0usize.index(&c)), Some(&4));
}
