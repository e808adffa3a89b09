use layout_helpers::layout::{
    same_ids, Builtin, FractionWidth, IntWidth, Layout, LayoutInterner, PtrWidth, UnionLayout,
    LAYOUT_BOOL, LAYOUT_STR, LAYOUT_U16, LAYOUT_U32, LAYOUT_U64, LAYOUT_U8, LAYOUT_UNIT,
    LAYOUT_VOID, MAX_TAGS, RESERVED,
};

#[test]
fn sizes_of_integers() {
    assert_eq!(IntWidth::U8.stack_size(), 1);
    assert_eq!(IntWidth::I8.stack_size(), 1);
    assert_eq!(IntWidth::U16.stack_size(), 2);
    assert_eq!(IntWidth::I16.stack_size(), 2);
    assert_eq!(IntWidth::U32.stack_size(), 4);
    assert_eq!(IntWidth::I32.stack_size(), 4);
    assert_eq!(IntWidth::U64.stack_size(), 8);
    assert_eq!(IntWidth::I64.stack_size(), 8);
    assert_eq!(IntWidth::U128.stack_size(), 16);
    assert_eq!(IntWidth::I128.stack_size(), 16);
}

#[test]
fn widths_of_pointers() {
    assert_eq!(PtrWidth::Bytes4.bytes(), 4);
    assert_eq!(PtrWidth::Bytes8.bytes(), 8);
    assert_eq!(PtrWidth::Bytes4.signed_int(), IntWidth::I32);
    assert_eq!(PtrWidth::Bytes8.signed_int(), IntWidth::I64);
}

#[test]
fn refcounted_builtins() {
    assert!(Builtin::Str.is_refcounted());
    assert!(Builtin::List(LAYOUT_U8).is_refcounted());
    assert!(Builtin::SetOf(LAYOUT_U8).is_refcounted());
    assert!(Builtin::Dict(LAYOUT_U8, LAYOUT_U8).is_refcounted());
    assert!(!Builtin::Int(IntWidth::U8).is_refcounted());
    assert!(!Builtin::Fraction(FractionWidth::Double).is_refcounted());
    assert!(!Builtin::Bool.is_refcounted());
    assert!(!Builtin::Decimal.is_refcounted());
}

#[test]
fn a_new_table_holds_the_reserved_layouts() {
    for (ptr, str_size) in [(PtrWidth::Bytes4, 12), (PtrWidth::Bytes8, 24)] {
        let table = LayoutInterner::new(ptr);
        assert_eq!(table.len(), RESERVED);
        assert_eq!(table.ptr_width(), ptr);
        assert_eq!(table.get(LAYOUT_VOID), Layout::Union(UnionLayout::NonRecursive(&[])));
        assert_eq!(table.get(LAYOUT_UNIT), Layout::Struct(&[]));
        assert_eq!(table.get(LAYOUT_BOOL), Layout::Builtin(Builtin::Bool));
        assert_eq!(table.get(LAYOUT_U8), Layout::Builtin(Builtin::Int(IntWidth::U8)));
        assert_eq!(table.get(LAYOUT_U16), Layout::Builtin(Builtin::Int(IntWidth::U16)));
        assert_eq!(table.get(LAYOUT_U32), Layout::Builtin(Builtin::Int(IntWidth::U32)));
        assert_eq!(table.get(LAYOUT_U64), Layout::Builtin(Builtin::Int(IntWidth::U64)));
        assert_eq!(table.get(LAYOUT_STR), Layout::Builtin(Builtin::Str));
        let sizes: Vec<u32> = (0..RESERVED).map(|id| table.stack_size(id)).collect();
        assert_eq!(sizes, [0, 0, 1, 1, 2, 4, 8, str_size]);
        assert!(table.is_closed());
    }
}

#[test]
fn insert_appends_and_keeps_the_sizes() {
    let mut table = LayoutInterner::new(PtrWidth::Bytes8);
    let list = table.insert(Layout::Builtin(Builtin::List(LAYOUT_STR)), 24, 0);
    assert_eq!(list, Some(8));
    let record = table.insert(Layout::Struct(&[8, LAYOUT_U64]), 32, 0);
    assert_eq!(record, Some(9));
    assert_eq!(table.len(), 10);
    assert_eq!(table.get(9), Layout::Struct(&[8, LAYOUT_U64]));
    assert_eq!(table.stack_size(9), 32);
    let union = table.insert(Layout::Union(UnionLayout::NonNullableUnwrapped(9)), 8, 32);
    assert_eq!(union, Some(10));
    assert_eq!(table.stack_size(10), 8);
    assert_eq!(table.data_size(10), 32);
}

#[test]
fn insert_refuses_parts_that_are_not_there() {
    let mut table = LayoutInterner::new(PtrWidth::Bytes8);
    let n = table.len();
    assert_eq!(table.insert(Layout::Builtin(Builtin::List(n)), 24, 0), None);
    assert_eq!(table.insert(Layout::Builtin(Builtin::SetOf(n + 5)), 24, 0), None);
    assert_eq!(table.insert(Layout::Builtin(Builtin::Dict(LAYOUT_U8, n)), 24, 0), None);
    assert_eq!(table.insert(Layout::Builtin(Builtin::Dict(n, LAYOUT_U8)), 24, 0), None);
    assert_eq!(table.insert(Layout::Struct(&[LAYOUT_U8, 8]), 9, 0), None);
    assert_eq!(table.insert(Layout::LambdaSet(8), 0, 0), None);
    assert_eq!(table.insert(Layout::Boxed(8), 8, 0), None);
    assert_eq!(table.len(), n);
    // a part may be the layout before, but not the layout itself
    assert_eq!(table.insert(Layout::Boxed(7), 8, 0), Some(8));
    assert_eq!(table.insert(Layout::Boxed(9), 8, 0), None);
    // the target of a recursive pointer comes later
    assert_eq!(table.insert(Layout::RecursivePointer(11), 8, 0), Some(9));
    assert!(!table.is_closed());
}

#[test]
fn variants_of_a_union_are_structs() {
    let mut table = LayoutInterner::new(PtrWidth::Bytes8);
    assert_eq!(table.insert(Layout::Union(UnionLayout::NonRecursive(&[LAYOUT_U64])), 9, 0), None);
    assert_eq!(table.insert(Layout::Union(UnionLayout::Recursive(&[LAYOUT_UNIT, LAYOUT_STR])), 8, 0), None);
    assert_eq!(table.insert(Layout::Union(UnionLayout::NonNullableUnwrapped(LAYOUT_U8)), 8, 0), None);
    assert_eq!(
        table.insert(Layout::Union(UnionLayout::NullableUnwrapped { nullable_id: true, other_fields: LAYOUT_BOOL }), 8, 0),
        None
    );
    assert_eq!(
        table.insert(Layout::Union(UnionLayout::NullableWrapped { nullable_id: 0, other_tags: &[LAYOUT_U8] }), 8, 0),
        None
    );
    // the number of the null pointer is one of the numbers of the variants
    assert_eq!(
        table.insert(Layout::Union(UnionLayout::NullableWrapped { nullable_id: 2, other_tags: &[LAYOUT_UNIT] }), 8, 0),
        None
    );
    assert_eq!(
        table.insert(Layout::Union(UnionLayout::NullableWrapped { nullable_id: 1, other_tags: &[LAYOUT_UNIT] }), 8, 0),
        Some(8)
    );
    assert_eq!(table.insert(Layout::Union(UnionLayout::NonRecursive(&[LAYOUT_UNIT, LAYOUT_UNIT])), 1, 0), Some(9));
}

#[test]
fn a_union_has_a_bounded_number_of_variants() {
    let table = LayoutInterner::new(PtrWidth::Bytes8);
    let most = vec![LAYOUT_UNIT; MAX_TAGS];
    let too_many = vec![LAYOUT_UNIT; MAX_TAGS + 1];
    assert!(!table.admits(&Layout::Union(UnionLayout::NonRecursive(&too_many))));
    assert!(!table.admits(&Layout::Union(UnionLayout::Recursive(&too_many))));
    assert!(!table.admits(&Layout::Union(UnionLayout::NullableWrapped { nullable_id: 0, other_tags: &most })));
    assert!(table.admits(&Layout::Union(UnionLayout::NonRecursive(&most))));
    assert!(table.admits(&Layout::Union(UnionLayout::Recursive(&most))));
    assert!(table.admits(&Layout::Union(UnionLayout::NullableWrapped {
        nullable_id: 0,
        other_tags: &most[1..]
    })));
}

#[test]
fn what_holds_no_pointer_is_safe_to_copy() {
    let mut table = LayoutInterner::new(PtrWidth::Bytes8);
    let pair = table.insert(Layout::Struct(&[LAYOUT_U64, LAYOUT_BOOL]), 16, 0).unwrap();
    let with_str = table.insert(Layout::Struct(&[LAYOUT_U64, LAYOUT_STR]), 32, 0).unwrap();
    let nested = table.insert(Layout::Struct(&[8, 8]), 32, 0).unwrap();
    let nested_str = table.insert(Layout::Struct(&[8, 9]), 48, 0).unwrap();
    let list = table.insert(Layout::Builtin(Builtin::List(LAYOUT_U8)), 24, 0).unwrap();
    let boxed = table.insert(Layout::Boxed(LAYOUT_U8), 8, 0).unwrap();
    let closure = table.insert(Layout::LambdaSet(pair), 16, 0).unwrap();
    let closure_str = table.insert(Layout::LambdaSet(with_str), 32, 0).unwrap();
    let decimal = table.insert(Layout::Builtin(Builtin::Decimal), 16, 0).unwrap();
    let fraction = table.insert(Layout::Builtin(Builtin::Fraction(FractionWidth::Single)), 4, 0).unwrap();
    let plain_union = table.insert(Layout::Union(UnionLayout::NonRecursive(&[8, LAYOUT_UNIT])), 17, 0).unwrap();
    assert_eq!((pair, with_str), (8, 9));
    let str_union = table.insert(Layout::Union(UnionLayout::NonRecursive(&[8, 9])), 33, 0).unwrap();
    let pointer_union = table.insert(Layout::Union(UnionLayout::Recursive(&[8])), 8, 16).unwrap();
    let pointer = table.insert(Layout::RecursivePointer(pointer_union), 8, 0).unwrap();

    for safe in [LAYOUT_VOID, LAYOUT_UNIT, LAYOUT_BOOL, LAYOUT_U8, LAYOUT_U64, pair, nested, closure, decimal, fraction, plain_union] {
        assert!(table.safe_to_memcpy(safe), "layout {}", safe);
    }
    for not_safe in [LAYOUT_STR, with_str, nested_str, list, boxed, closure_str, str_union, pointer_union, pointer] {
        assert!(!table.safe_to_memcpy(not_safe), "layout {}", not_safe);
    }
    assert!(table.all_safe_to_memcpy(&[pair, LAYOUT_U8], nested));
    assert!(!table.all_safe_to_memcpy(&[pair, with_str], nested_str));
    assert!(table.all_safe_to_memcpy(&[], RESERVED));
}

#[test]
fn a_table_is_closed_when_pointers_lead_to_pointer_unions() {
    let mut table = LayoutInterner::new(PtrWidth::Bytes8);
    let pointer = table.insert(Layout::RecursivePointer(10), 8, 0).unwrap();
    assert!(!table.is_closed());
    let cons = table.insert(Layout::Struct(&[LAYOUT_U64, 8]), 16, 0).unwrap();
    assert_eq!((pointer, cons), (8, 9));
    assert!(!table.is_closed());
    let list = table.insert(Layout::Union(UnionLayout::NullableUnwrapped { nullable_id: false, other_fields: 9 }), 8, 16);
    assert_eq!(list, Some(10));
    assert!(table.is_closed());
    // a pointer to a struct, or to a union that is no pointer, does not close
    let mut table = LayoutInterner::new(PtrWidth::Bytes8);
    table.insert(Layout::RecursivePointer(LAYOUT_UNIT), 8, 0).unwrap();
    assert!(!table.is_closed());
    let mut table = LayoutInterner::new(PtrWidth::Bytes8);
    table.insert(Layout::RecursivePointer(LAYOUT_VOID), 8, 0).unwrap();
    assert!(!table.is_closed());
}

#[test]
fn equal_layouts_are_the_same() {
    let a = Layout::Struct(&[1, 2, 3]);
    assert!(a.same(&Layout::Struct(&[1, 2, 3])));
    assert!(!a.same(&Layout::Struct(&[1, 2])));
    assert!(!a.same(&Layout::Struct(&[1, 2, 4])));
    assert!(!a.same(&Layout::Union(UnionLayout::NonRecursive(&[1, 2, 3]))));
    assert!(Layout::Builtin(Builtin::Str).same(&Layout::Builtin(Builtin::Str)));
    assert!(!Layout::Builtin(Builtin::Str).same(&Layout::Builtin(Builtin::Bool)));
    assert!(!Layout::Boxed(3).same(&Layout::RecursivePointer(3)));
    assert!(Layout::LambdaSet(3).same(&Layout::LambdaSet(3)));
    let wrapped = UnionLayout::NullableWrapped { nullable_id: 1, other_tags: &[4, 5] };
    assert!(wrapped.same(&UnionLayout::NullableWrapped { nullable_id: 1, other_tags: &[4, 5] }));
    assert!(!wrapped.same(&UnionLayout::NullableWrapped { nullable_id: 0, other_tags: &[4, 5] }));
    assert!(!wrapped.same(&UnionLayout::Recursive(&[4, 5])));
    assert!(!UnionLayout::Recursive(&[4, 5]).same(&UnionLayout::NonRecursive(&[4, 5])));
    let unwrapped = UnionLayout::NullableUnwrapped { nullable_id: true, other_fields: 4 };
    assert!(unwrapped.same(&unwrapped));
    assert!(!unwrapped.same(&UnionLayout::NullableUnwrapped { nullable_id: false, other_fields: 4 }));
    assert!(same_ids(&[], &[]));
    assert!(!same_ids(&[1], &[]));
}

#[test]
fn where_the_discriminant_is_kept() {
    let few = [LAYOUT_UNIT; 3];
    let four = [LAYOUT_UNIT; 4];
    let seven = [LAYOUT_UNIT; 7];
    let eight = [LAYOUT_UNIT; 8];
    // fewer variants than a pointer has bytes
    assert!(UnionLayout::Recursive(&few).stores_tag_id_in_pointer(PtrWidth::Bytes4));
    assert!(!UnionLayout::Recursive(&four).stores_tag_id_in_pointer(PtrWidth::Bytes4));
    assert!(UnionLayout::Recursive(&seven).stores_tag_id_in_pointer(PtrWidth::Bytes8));
    assert!(!UnionLayout::Recursive(&eight).stores_tag_id_in_pointer(PtrWidth::Bytes8));
    // the null pointer counts as a variant
    let wrapped = |tags| UnionLayout::NullableWrapped { nullable_id: 0, other_tags: tags };
    assert!(wrapped(&few[..2]).stores_tag_id_in_pointer(PtrWidth::Bytes4));
    assert!(!wrapped(&few).stores_tag_id_in_pointer(PtrWidth::Bytes4));
    assert!(wrapped(&seven[..6]).stores_tag_id_in_pointer(PtrWidth::Bytes8));
    assert!(!wrapped(&seven).stores_tag_id_in_pointer(PtrWidth::Bytes8));
    // the other encodings have no discriminant in a pointer
    assert!(!UnionLayout::NonRecursive(&few).stores_tag_id_in_pointer(PtrWidth::Bytes8));
    assert!(!UnionLayout::NonNullableUnwrapped(1).stores_tag_id_in_pointer(PtrWidth::Bytes8));
    let unwrapped = UnionLayout::NullableUnwrapped { nullable_id: false, other_fields: 1 };
    assert!(!unwrapped.stores_tag_id_in_pointer(PtrWidth::Bytes8));
    assert!(UnionLayout::Recursive(&few).is_recursive());
    assert!(!UnionLayout::NonRecursive(&few).is_recursive());
    assert!(unwrapped.is_nullable());
    assert!(wrapped(&few).is_nullable());
    assert!(!UnionLayout::Recursive(&few).is_nullable());
}

#[test]
fn the_discriminant_has_one_byte_or_two() {
    let small = vec![LAYOUT_UNIT; 255];
    let large = vec![LAYOUT_UNIT; 256];
    assert_eq!(UnionLayout::NonRecursive(&small).tag_id_layout(), LAYOUT_U8);
    assert_eq!(UnionLayout::NonRecursive(&small).tag_id_width(), 1);
    assert_eq!(UnionLayout::NonRecursive(&large).tag_id_layout(), LAYOUT_U16);
    assert_eq!(UnionLayout::NonRecursive(&large).tag_id_width(), 2);
    assert_eq!(UnionLayout::Recursive(&large).tag_id_layout(), LAYOUT_U16);
    let wrapped = UnionLayout::NullableWrapped { nullable_id: 0, other_tags: &small[..254] };
    assert_eq!(wrapped.tag_id_layout(), LAYOUT_U8);
    let wrapped = UnionLayout::NullableWrapped { nullable_id: 0, other_tags: &small };
    assert_eq!(wrapped.tag_id_layout(), LAYOUT_U16);
    assert_eq!(wrapped.tag_id_width(), 2);
    assert_eq!(UnionLayout::NonNullableUnwrapped(1).tag_id_layout(), LAYOUT_U8);
    let unwrapped = UnionLayout::NullableUnwrapped { nullable_id: false, other_fields: 1 };
    assert_eq!(unwrapped.tag_id_width(), 1);
}
