use layout_helpers::layout::{
    Builtin, InLayout, Layout, LayoutInterner, PtrWidth, UnionLayout, LAYOUT_BOOL, LAYOUT_STR,
    LAYOUT_U16, LAYOUT_U64, LAYOUT_U8, LAYOUT_UNIT, LAYOUT_VOID,
};
use layout_helpers::snapshot_code::{Body, Case, Op, Word};
use layout_helpers::snapshot_gen::{
    build_clone, build_clone_builtin, build_clone_struct, build_clone_tag, build_clone_tag_help,
    build_copy, write_pointer_with_tag_id, CloneProcs,
};
use layout_helpers::snapshot_sizes::{check_sizes, entry_sizes_fit};

fn store(delta: u64, width: u64, word: Word) -> Op {
    Op::Store { delta, width, word }
}

fn data(width: u64) -> Vec<Op> {
    vec![store(0, width, Word::Data)]
}

fn header() -> Vec<Op> {
    vec![store(0, 8, Word::ExtraOffset), store(8, 8, Word::Length), store(16, 8, Word::Length)]
}

/// A value, as far as copying goes.
#[derive(Clone, Debug)]
enum Value {
    Plain,
    Str(u64),
    Items(Vec<Value>),
    Struct(Vec<Value>),
    Boxed(Box<Value>),
    Null,
    Tag(u64, Box<Value>),
}

#[derive(Clone, Copy, Debug, PartialEq)]
enum Stored {
    Bytes,
    Number(u64),
}

#[derive(Clone, Copy, Debug, PartialEq)]
struct Write {
    at: u64,
    width: u64,
    stored: Stored,
}

/// Runs code as the backend's machine would, and checks on the way that
/// no cursor moves back.
struct Machine<'a> {
    procs: &'a CloneProcs,
    writes: Vec<Write>,
}

impl<'a> Machine<'a> {
    fn run(&mut self, code: &[Op], v: &Value, mut offset: u64, mut extra: u64) -> (u64, u64) {
        for op in code {
            let (next_offset, next_extra) = self.step(op, v, offset, extra);
            assert!(next_offset >= offset && next_extra >= extra, "a cursor moved back at {:?}", op);
            offset = next_offset;
            extra = next_extra;
        }
        (offset, extra)
    }

    fn step(&mut self, op: &Op, v: &Value, offset: u64, extra: u64) -> (u64, u64) {
        match op {
            Op::Store { delta, width, word } => {
                let stored = match word {
                    Word::Data => Stored::Bytes,
                    Word::ExtraOffset => Stored::Number(extra),
                    Word::ExtraOffset32 => Stored::Number(extra % (1 << 32)),
                    Word::TagId(id) => Stored::Number(*id as u64),
                    Word::Length => match v {
                        Value::Items(items) => Stored::Number(items.len() as u64),
                        other => panic!("no collection: {:?}", other),
                    },
                };
                self.writes.push(Write { at: offset + delta, width: *width, stored });
                (offset, extra)
            }
            Op::Advance { bytes } => (offset + bytes, extra),
            Op::StrCloneTo { header } => match v {
                Value::Str(heap) => {
                    self.writes.push(Write { at: offset, width: *header, stored: Stored::Bytes });
                    self.writes.push(Write { at: extra, width: *heap, stored: Stored::Bytes });
                    (offset, extra + heap)
                }
                other => panic!("no string: {:?}", other),
            },
            Op::Field { index, code } => match v {
                Value::Struct(fields) => (offset, self.run(code, &fields[*index], offset, extra).1),
                other => panic!("no struct: {:?}", other),
            },
            Op::Deref { code } => match v {
                Value::Boxed(inner) => (offset, self.run(code, inner, offset, extra).1),
                other => panic!("no box: {:?}", other),
            },
            Op::Enter { reserve, code } => (offset, self.run(code, v, extra, extra + reserve).1),
            Op::CopyElements { width } => match v {
                Value::Items(items) => {
                    let bytes = items.len() as u64 * width;
                    self.writes.push(Write { at: extra, width: bytes, stored: Stored::Bytes });
                    (offset, extra + bytes)
                }
                other => panic!("no collection: {:?}", other),
            },
            Op::EachElement { width, code } => match v {
                Value::Items(items) => {
                    let mut rest = extra + items.len() as u64 * width;
                    for (i, item) in items.iter().enumerate() {
                        let at = extra + i as u64 * width;
                        assert!(at + width <= rest);
                        rest = self.run(code, item, at, rest).1;
                    }
                    (offset, rest)
                }
                other => panic!("no collection: {:?}", other),
            },
            Op::Call { union } => {
                let body = self.procs.body(*union).expect("the procedure was generated");
                (offset, self.call(body, v, offset, extra))
            }
        }
    }

    fn call(&mut self, body: &Body, v: &Value, offset: u64, extra: u64) -> u64 {
        match (body, v) {
            (Body::Unreachable, _) => panic!("a union without variants has no value"),
            (Body::NullOr { sentinel, .. }, Value::Null) => {
                self.writes.push(Write { at: offset, width: *sentinel, stored: Stored::Number(0) });
                extra
            }
            (Body::NullOr { other, .. }, _) => self.call(other, v, offset, extra),
            (Body::Only { code, .. }, Value::Tag(_, payload)) => self.run(code, payload, offset, extra).1,
            (Body::Switch { cases }, Value::Tag(id, payload)) => {
                let case = cases
                    .iter()
                    .find(|case| case.tag_id as u64 == *id)
                    .unwrap_or_else(|| cases.last().expect("a switch has cases"));
                self.run(&case.code, payload, offset, extra).1
            }
            (body, v) => panic!("cannot run {:?} on {:?}", body, v),
        }
    }
}

/// Copies a value of a layout to `offset`, with `extra` behind it, and
/// gives the stores and where `extra` ends.
fn copy(table: &LayoutInterner, layout: InLayout, v: &Value, offset: u64) -> (Vec<Write>, u64) {
    let mut procs = CloneProcs::new(table);
    let code = build_clone(table, &mut procs, layout);
    let size = table.stack_size(layout) as u64;
    let mut machine = Machine { procs: &procs, writes: Vec::new() };
    let (end_offset, extra) = machine.run(&code, v, offset, offset + size);
    assert!(end_offset <= offset + size);
    // every store lies in the value's own bytes or in what was appended
    for w in &machine.writes {
        let fixed = offset <= w.at && w.at + w.width <= offset + size;
        let appended = offset + size <= w.at && w.at + w.width <= extra;
        assert!(fixed || appended, "{:?} is out of bounds", w);
    }
    (machine.writes, extra)
}

/// A table for a target with pointers of 8 bytes, with layouts that the
/// tests share. The layouts are named by the constants below.
fn table() -> LayoutInterner<'static> {
    let mut t = LayoutInterner::new(PtrWidth::Bytes8);
    let mut add = |layout, size, data_size| t.insert(layout, size, data_size).expect("admissible");
    assert_eq!(add(Layout::Builtin(Builtin::List(LAYOUT_U64)), 24, 0), LIST_U64);
    assert_eq!(add(Layout::Builtin(Builtin::List(LAYOUT_STR)), 24, 0), LIST_STR);
    assert_eq!(add(Layout::Struct(&[LAYOUT_U64, LAYOUT_BOOL]), 16, 0), PLAIN_PAIR);
    assert_eq!(add(Layout::Struct(&[LAYOUT_STR, LAYOUT_U64]), 32, 0), STR_AND_INT);
    assert_eq!(add(Layout::Boxed(STR_AND_INT), 8, 0), BOXED);
    assert_eq!(add(Layout::LambdaSet(STR_AND_INT), 32, 0), CLOSURE);
    assert_eq!(add(Layout::RecursivePointer(CONS_LIST), 8, 0), CONS_POINTER);
    assert_eq!(add(Layout::Struct(&[LAYOUT_STR, CONS_POINTER]), 32, 0), CONS);
    assert_eq!(
        add(Layout::Union(UnionLayout::NullableUnwrapped { nullable_id: false, other_fields: CONS }), 8, 32),
        CONS_LIST
    );
    assert_eq!(add(Layout::Struct(&[LAYOUT_STR]), 24, 0), ONE_STR);
    assert_eq!(add(Layout::Union(UnionLayout::NonRecursive(&[PLAIN_PAIR, LAYOUT_UNIT])), 17, 0), PLAIN_UNION);
    assert_eq!(add(Layout::Union(UnionLayout::NonRecursive(&[ONE_STR, PLAIN_PAIR])), 25, 0), RESULT);
    assert_eq!(add(Layout::Builtin(Builtin::SetOf(LAYOUT_U8)), 24, 0), SET_U8);
    assert_eq!(add(Layout::Builtin(Builtin::Dict(LAYOUT_STR, LAYOUT_U64)), 24, 0), DICT);
    assert_eq!(add(Layout::Builtin(Builtin::Dict(LAYOUT_U8, LAYOUT_U64)), 24, 0), PLAIN_DICT);
    t
}

const LIST_U64: InLayout = 8;
const LIST_STR: InLayout = 9;
const PLAIN_PAIR: InLayout = 10;
const STR_AND_INT: InLayout = 11;
const BOXED: InLayout = 12;
const CLOSURE: InLayout = 13;
const CONS_POINTER: InLayout = 14;
const CONS: InLayout = 15;
const CONS_LIST: InLayout = 16;
const ONE_STR: InLayout = 17;
const PLAIN_UNION: InLayout = 18;
const RESULT: InLayout = 19;
const SET_U8: InLayout = 20;
const DICT: InLayout = 21;
const PLAIN_DICT: InLayout = 22;

fn code_of(table: &LayoutInterner, layout: InLayout) -> (Vec<Op>, CloneProcs) {
    let mut procs = CloneProcs::new(table);
    let code = build_clone(table, &mut procs, layout);
    (code, procs)
}

fn generated(procs: &CloneProcs) -> Vec<InLayout> {
    (0..procs.len()).filter(|id| procs.body(*id).is_some()).collect()
}

#[test]
fn build_copy_adds_a_store_and_gives_its_end() {
    let mut code = Vec::new();
    assert_eq!(build_copy(&mut code, 0, 8, Word::ExtraOffset), 8);
    assert_eq!(build_copy(&mut code, 8, 4, Word::TagId(3)), 12);
    assert_eq!(code, [store(0, 8, Word::ExtraOffset), store(8, 4, Word::TagId(3))]);
}

#[test]
fn reference_with_and_without_the_discriminant() {
    let mut code = Vec::new();
    write_pointer_with_tag_id(&mut code, false, 5, PtrWidth::Bytes8);
    assert_eq!(code, [store(0, 8, Word::ExtraOffset)]);
    let mut code = Vec::new();
    write_pointer_with_tag_id(&mut code, false, 5, PtrWidth::Bytes4);
    assert_eq!(code, [store(0, 4, Word::ExtraOffset)]);
    let mut code = vec![Op::Advance { bytes: 1 }];
    write_pointer_with_tag_id(&mut code, true, 5, PtrWidth::Bytes8);
    assert_eq!(
        code,
        [Op::Advance { bytes: 1 }, store(0, 4, Word::TagId(5)), store(4, 4, Word::ExtraOffset32)]
    );
}

#[test]
fn scalars_are_stored_as_they_are() {
    let t = table();
    for (layout, size) in [(LAYOUT_BOOL, 1), (LAYOUT_U8, 1), (LAYOUT_U16, 2), (LAYOUT_U64, 8)] {
        let (code, procs) = code_of(&t, layout);
        assert_eq!(code, data(size));
        assert!(generated(&procs).is_empty());
    }
    let (writes, extra) = copy(&t, LAYOUT_U64, &Value::Plain, 100);
    assert_eq!(writes, [Write { at: 100, width: 8, stored: Stored::Bytes }]);
    assert_eq!(extra, 108);
}

#[test]
fn a_string_is_copied_by_the_runtime() {
    let t = table();
    assert_eq!(code_of(&t, LAYOUT_STR).0, [Op::StrCloneTo { header: 24 }]);
    let mut procs = CloneProcs::new(&t);
    assert_eq!(build_clone_builtin(&t, &mut procs, LAYOUT_STR, Builtin::Str), [Op::StrCloneTo { header: 24 }]);
    // a small string appends nothing, a large one its characters
    assert_eq!(copy(&t, LAYOUT_STR, &Value::Str(0), 16).1, 40);
    assert_eq!(copy(&t, LAYOUT_STR, &Value::Str(100), 16).1, 140);
}

#[test]
fn a_list_of_scalars_is_copied_in_one_piece() {
    let t = table();
    let mut expected = header();
    expected.push(Op::CopyElements { width: 8 });
    assert_eq!(code_of(&t, LIST_U64).0, expected);
    let three = Value::Items(vec![Value::Plain; 3]);
    let (writes, extra) = copy(&t, LIST_U64, &three, 0);
    assert_eq!(
        writes,
        [
            Write { at: 0, width: 8, stored: Stored::Number(24) },
            Write { at: 8, width: 8, stored: Stored::Number(3) },
            Write { at: 16, width: 8, stored: Stored::Number(3) },
            Write { at: 24, width: 24, stored: Stored::Bytes },
        ]
    );
    assert_eq!(extra, 48);
    // the empty list appends nothing
    assert_eq!(copy(&t, LIST_U64, &Value::Items(vec![]), 0).1, 24);
    let mut expected = header();
    expected.push(Op::CopyElements { width: 1 });
    assert_eq!(code_of(&t, SET_U8).0, expected);
}

#[test]
fn a_list_of_strings_is_copied_item_by_item() {
    let t = table();
    let mut expected = header();
    expected.push(Op::EachElement { width: 24, code: vec![Op::StrCloneTo { header: 24 }] });
    assert_eq!(code_of(&t, LIST_STR).0, expected);
    let list = Value::Items(vec![Value::Str(5), Value::Str(0), Value::Str(7)]);
    let (writes, extra) = copy(&t, LIST_STR, &list, 0);
    // the items follow the list, and the characters follow the items
    let at: Vec<(u64, u64)> = writes.iter().map(|w| (w.at, w.width)).collect();
    assert_eq!(
        at,
        [(0, 8), (8, 8), (16, 8), (24, 24), (96, 5), (48, 24), (101, 0), (72, 24), (101, 7)]
    );
    assert_eq!(extra, 108);
}

#[test]
fn a_dictionary_is_copied_entry_by_entry() {
    let t = table();
    let mut expected = header();
    expected.push(Op::CopyElements { width: 9 });
    assert_eq!(code_of(&t, PLAIN_DICT).0, expected);
    let mut expected = header();
    expected.push(Op::EachElement {
        width: 32,
        code: vec![
            Op::Field { index: 0, code: vec![Op::StrCloneTo { header: 24 }] },
            Op::Advance { bytes: 24 },
            Op::Field { index: 1, code: data(8) },
            Op::Advance { bytes: 8 },
        ],
    });
    assert_eq!(code_of(&t, DICT).0, expected);
    let entry = |heap| Value::Struct(vec![Value::Str(heap), Value::Plain]);
    let (_, extra) = copy(&t, DICT, &Value::Items(vec![entry(3), entry(4)]), 0);
    assert_eq!(extra, 24 + 64 + 7);
}

#[test]
fn a_struct_without_pointers_is_stored_in_one_piece() {
    let t = table();
    assert_eq!(code_of(&t, PLAIN_PAIR).0, data(16));
    assert_eq!(code_of(&t, LAYOUT_UNIT).0, data(0));
    let (writes, extra) = copy(&t, PLAIN_PAIR, &Value::Plain, 40);
    assert_eq!(writes, [Write { at: 40, width: 16, stored: Stored::Bytes }]);
    // nothing is appended, so `extra` stays behind the struct
    assert_eq!(extra, 56);
}

#[test]
fn a_struct_with_a_pointer_is_copied_field_by_field() {
    let t = table();
    let expected = vec![
        Op::Field { index: 0, code: vec![Op::StrCloneTo { header: 24 }] },
        Op::Advance { bytes: 24 },
        Op::Field { index: 1, code: data(8) },
        Op::Advance { bytes: 8 },
    ];
    assert_eq!(code_of(&t, STR_AND_INT).0, expected);
    let mut procs = CloneProcs::new(&t);
    assert_eq!(build_clone_struct(&t, &mut procs, &[LAYOUT_STR, LAYOUT_U64], 32, STR_AND_INT), expected);
    let v = Value::Struct(vec![Value::Str(10), Value::Plain]);
    let (writes, extra) = copy(&t, STR_AND_INT, &v, 0);
    assert_eq!(
        writes,
        [
            Write { at: 0, width: 24, stored: Stored::Bytes },
            Write { at: 32, width: 10, stored: Stored::Bytes },
            Write { at: 24, width: 8, stored: Stored::Bytes },
        ]
    );
    assert_eq!(extra, 42);
}

#[test]
fn fixed_cursor_moves_by_the_size_of_each_field() {
    let t = table();
    let (code, procs) = code_of(&t, STR_AND_INT);
    let mut machine = Machine { procs: &procs, writes: Vec::new() };
    let v = Value::Struct(vec![Value::Str(1000), Value::Plain]);
    let (offset, extra) = machine.run(&code, &v, 64, 96);
    assert_eq!(offset, 64 + t.stack_size(LAYOUT_STR) as u64 + t.stack_size(LAYOUT_U64) as u64);
    assert_eq!(offset, 64 + t.stack_size(STR_AND_INT) as u64);
    assert_eq!(extra, 1096);
}

#[test]
fn a_closure_is_not_written() {
    let t = table();
    assert_eq!(code_of(&t, CLOSURE).0, []);
    let (writes, extra) = copy(&t, CLOSURE, &Value::Plain, 8);
    assert!(writes.is_empty());
    assert_eq!(extra, 40);
}

#[test]
fn a_boxed_value_is_copied_behind_a_reference() {
    let t = table();
    let inner = vec![
        Op::Field { index: 0, code: vec![Op::StrCloneTo { header: 24 }] },
        Op::Advance { bytes: 24 },
        Op::Field { index: 1, code: data(8) },
        Op::Advance { bytes: 8 },
    ];
    assert_eq!(
        code_of(&t, BOXED).0,
        [
            store(0, 8, Word::ExtraOffset),
            Op::Deref { code: vec![Op::Enter { reserve: 32, code: inner }] },
        ]
    );
    let v = Value::Boxed(Box::new(Value::Struct(vec![Value::Str(6), Value::Plain])));
    let (writes, extra) = copy(&t, BOXED, &v, 0);
    assert_eq!(
        writes,
        [
            Write { at: 0, width: 8, stored: Stored::Number(8) },
            Write { at: 8, width: 24, stored: Stored::Bytes },
            Write { at: 40, width: 6, stored: Stored::Bytes },
            Write { at: 32, width: 8, stored: Stored::Bytes },
        ]
    );
    assert_eq!(extra, 46);
}

#[test]
fn a_union_without_pointers_is_stored_in_one_piece() {
    let t = table();
    let (code, procs) = code_of(&t, PLAIN_UNION);
    assert_eq!(code, data(17));
    assert!(generated(&procs).is_empty());
}

#[test]
fn a_union_with_pointers_gets_a_procedure() {
    let t = table();
    let (code, procs) = code_of(&t, RESULT);
    assert_eq!(code, [Op::Call { union: RESULT }]);
    assert_eq!(generated(&procs), [RESULT]);
    let expected = Body::Switch {
        cases: vec![
            Case {
                tag_id: 0,
                variant: ONE_STR,
                tag_id_layout: Some(LAYOUT_U8),
                clears_tag_id: false,
                code: vec![
                    Op::Field {
                        index: 0,
                        code: vec![
                            Op::Field { index: 0, code: vec![Op::StrCloneTo { header: 24 }] },
                            Op::Advance { bytes: 24 },
                        ],
                    },
                    Op::Advance { bytes: 24 },
                    Op::Field { index: 1, code: data(1) },
                    Op::Advance { bytes: 1 },
                ],
            },
            // this variant holds no pointer: it is stored with its discriminant
            Case {
                tag_id: 1,
                variant: PLAIN_PAIR,
                tag_id_layout: Some(LAYOUT_U8),
                clears_tag_id: false,
                code: data(17),
            },
        ],
    };
    assert_eq!(procs.body(RESULT), Some(&expected));
    let ok = Value::Tag(0, Box::new(Value::Struct(vec![Value::Struct(vec![Value::Str(9)]), Value::Plain])));
    let (writes, extra) = copy(&t, RESULT, &ok, 0);
    assert_eq!(
        writes,
        [
            Write { at: 0, width: 24, stored: Stored::Bytes },
            Write { at: 25, width: 9, stored: Stored::Bytes },
            Write { at: 24, width: 1, stored: Stored::Bytes },
        ]
    );
    assert_eq!(extra, 34);
    let err = Value::Tag(1, Box::new(Value::Plain));
    assert_eq!(copy(&t, RESULT, &err, 0), (vec![Write { at: 0, width: 17, stored: Stored::Bytes }], 25));
}

#[test]
fn a_union_without_variants_is_never_copied() {
    let mut t = LayoutInterner::new(PtrWidth::Bytes8);
    let empty = t.insert(Layout::Union(UnionLayout::Recursive(&[])), 8, 0).unwrap();
    let mut procs = CloneProcs::new(&t);
    assert_eq!(build_clone_tag_help(&t, &mut procs, empty), Body::Unreachable);
    assert_eq!(build_clone_tag_help(&t, &mut procs, LAYOUT_VOID), Body::Unreachable);
    // the layout without variants and without pointers is stored as it is
    assert_eq!(code_of(&t, LAYOUT_VOID).0, data(0));
    assert_eq!(code_of(&t, empty).0, [Op::Call { union: empty }]);
}

#[test]
fn a_recursive_union_gets_one_procedure_that_calls_itself() {
    let t = table();
    let (code, procs) = code_of(&t, CONS_LIST);
    assert_eq!(code, [Op::Call { union: CONS_LIST }]);
    assert_eq!(generated(&procs), [CONS_LIST]);
    let expected = Body::NullOr {
        sentinel: 8,
        other: Box::new(Body::Only {
            variant: CONS,
            code: vec![
                store(0, 8, Word::ExtraOffset),
                Op::Enter {
                    reserve: 32,
                    code: vec![
                        Op::Field { index: 0, code: vec![Op::StrCloneTo { header: 24 }] },
                        Op::Advance { bytes: 24 },
                        Op::Field { index: 1, code: vec![Op::Call { union: CONS_LIST }] },
                        Op::Advance { bytes: 8 },
                    ],
                },
            ],
        }),
    };
    assert_eq!(procs.body(CONS_LIST), Some(&expected));

    // a second request changes nothing
    let mut procs = procs;
    assert_eq!(build_clone(&t, &mut procs, CONS_LIST), [Op::Call { union: CONS_LIST }]);
    assert_eq!(build_clone_tag(&t, &mut procs, CONS_LIST), [Op::Call { union: CONS_LIST }]);
    assert_eq!(build_clone(&t, &mut procs, CONS_POINTER), [Op::Call { union: CONS_LIST }]);
    assert_eq!(generated(&procs), [CONS_LIST]);
    assert_eq!(procs.body(CONS_LIST), Some(&expected));
}

#[test]
fn the_procedure_is_generated_where_the_pointer_is_met_first() {
    let t = table();
    let (code, procs) = code_of(&t, CONS);
    assert_eq!(
        code,
        [
            Op::Field { index: 0, code: vec![Op::StrCloneTo { header: 24 }] },
            Op::Advance { bytes: 24 },
            Op::Field { index: 1, code: vec![Op::Call { union: CONS_LIST }] },
            Op::Advance { bytes: 8 },
        ]
    );
    assert_eq!(generated(&procs), [CONS_LIST]);
}

#[test]
fn deep_values_are_copied_by_the_one_procedure() {
    let t = table();
    let mut list = Value::Null;
    for i in 0..50 {
        list = Value::Tag(1, Box::new(Value::Struct(vec![Value::Str(i), list])));
    }
    let (writes, extra) = copy(&t, CONS_LIST, &list, 0);
    // per cell one reference and one string, and the null pointer at the end
    assert_eq!(writes.len(), 50 * 3 + 1);
    assert_eq!(extra, 8 + 50 * 32 + (0..50).sum::<u64>());
}

#[test]
fn null_is_written_as_one_word_of_zero() {
    let t = table();
    let (writes, extra) = copy(&t, CONS_LIST, &Value::Null, 16);
    assert_eq!(writes, [Write { at: 16, width: 8, stored: Stored::Number(0) }]);
    assert_eq!(extra, 24);
}

#[test]
fn what_is_not_null_is_written_as_a_reference() {
    let t = table();
    let one = Value::Tag(1, Box::new(Value::Struct(vec![Value::Str(0), Value::Null])));
    let (writes, extra) = copy(&t, CONS_LIST, &one, 16);
    // the reference is where `extra` was, and it is not zero
    assert_eq!(writes[0], Write { at: 16, width: 8, stored: Stored::Number(24) });
    // `extra` has moved by the size of the payload
    assert_eq!(extra, 24 + t.stack_size(CONS) as u64);
    assert_eq!(writes[3], Write { at: 48, width: 8, stored: Stored::Number(0) });
}

/// A table with a union of the kind `Recursive` and one of the kind
/// `NullableWrapped`, with `variants` variants each.
fn pointer_unions(ptr: PtrWidth, variants: usize) -> (LayoutInterner<'static>, InLayout, InLayout) {
    let mut t = LayoutInterner::new(ptr);
    let p = ptr.bytes();
    let one_str = t.insert(Layout::Struct(&[LAYOUT_STR]), 3 * p, 0).unwrap();
    let tags: &'static [InLayout] = vec![one_str; variants].leak();
    let recursive = t.insert(Layout::Union(UnionLayout::Recursive(tags)), 8, 3 * p + 8).unwrap();
    let wrapped = t
        .insert(Layout::Union(UnionLayout::NullableWrapped { nullable_id: 1, other_tags: &tags[1..] }), 8, 3 * p)
        .unwrap();
    (t, recursive, wrapped)
}

#[test]
fn the_discriminant_goes_into_the_pointer_where_it_fits() {
    let (t, recursive, _) = pointer_unions(PtrWidth::Bytes8, 3);
    let (_, procs) = code_of(&t, recursive);
    let payload =
        || vec![Op::Field { index: 0, code: vec![Op::StrCloneTo { header: 24 }] }, Op::Advance { bytes: 24 }];
    let case = |tag_id: u16| Case {
        tag_id,
        variant: 8,
        tag_id_layout: None,
        clears_tag_id: true,
        code: vec![
            store(0, 4, Word::TagId(tag_id)),
            store(4, 4, Word::ExtraOffset32),
            Op::Enter { reserve: 32, code: payload() },
        ],
    };
    assert_eq!(procs.body(recursive), Some(&Body::Switch { cases: vec![case(0), case(1), case(2)] }));
    let v = Value::Tag(2, Box::new(Value::Struct(vec![Value::Str(4)])));
    let (writes, extra) = copy(&t, recursive, &v, 0);
    assert_eq!(writes[0], Write { at: 0, width: 4, stored: Stored::Number(2) });
    assert_eq!(writes[1], Write { at: 4, width: 4, stored: Stored::Number(8) });
    assert_eq!(extra, 8 + 32 + 4);
}

#[test]
fn the_discriminant_lies_behind_the_payload_where_it_does_not_fit() {
    let (t, recursive, _) = pointer_unions(PtrWidth::Bytes8, 8);
    let (_, procs) = code_of(&t, recursive);
    let body = procs.body(recursive).expect("generated");
    let cases = match body {
        Body::Switch { cases } => cases,
        other => panic!("expected a switch, not {:?}", other),
    };
    assert_eq!(cases.len(), 8);
    assert_eq!(
        cases[7],
        Case {
            tag_id: 7,
            variant: 8,
            tag_id_layout: Some(LAYOUT_U8),
            clears_tag_id: true,
            code: vec![
                store(0, 8, Word::ExtraOffset),
                Op::Enter {
                    reserve: 32,
                    code: vec![
                        Op::Field {
                            index: 0,
                            code: vec![
                                Op::Field { index: 0, code: vec![Op::StrCloneTo { header: 24 }] },
                                Op::Advance { bytes: 24 },
                            ],
                        },
                        Op::Advance { bytes: 24 },
                        Op::Field { index: 1, code: data(1) },
                        Op::Advance { bytes: 1 },
                    ],
                },
            ],
        }
    );
}

#[test]
fn the_number_of_the_null_pointer_is_left_out() {
    let (t, _, wrapped) = pointer_unions(PtrWidth::Bytes8, 4);
    let (code, procs) = code_of(&t, wrapped);
    assert_eq!(code, [Op::Call { union: wrapped }]);
    let (sentinel, other) = match procs.body(wrapped).expect("generated") {
        Body::NullOr { sentinel, other } => (*sentinel, other),
        other => panic!("expected the test for null, not {:?}", other),
    };
    assert_eq!(sentinel, 8);
    let cases = match &**other {
        Body::Switch { cases } => cases,
        other => panic!("expected a switch, not {:?}", other),
    };
    let ids: Vec<u16> = cases.iter().map(|case| case.tag_id).collect();
    assert_eq!(ids, [0, 2, 3]);
    for case in cases {
        assert_eq!(case.tag_id_layout, None);
        assert!(case.clears_tag_id);
        assert_eq!(case.code[0], store(0, 4, Word::TagId(case.tag_id)));
        assert_eq!(case.code[1], store(4, 4, Word::ExtraOffset32));
        assert!(matches!(case.code[2], Op::Enter { reserve: 24, .. }));
    }
    let (writes, extra) = copy(&t, wrapped, &Value::Null, 0);
    assert_eq!(writes, [Write { at: 0, width: 8, stored: Stored::Number(0) }]);
    assert_eq!(extra, 8);
    let v = Value::Tag(3, Box::new(Value::Struct(vec![Value::Str(2)])));
    let (writes, extra) = copy(&t, wrapped, &v, 0);
    assert_eq!(writes[0], Write { at: 0, width: 4, stored: Stored::Number(3) });
    assert_eq!(writes[1], Write { at: 4, width: 4, stored: Stored::Number(8) });
    assert_eq!(extra, 8 + 24 + 2);
}

#[test]
fn a_union_with_one_variant_is_a_plain_pointer() {
    let mut t = LayoutInterner::new(PtrWidth::Bytes4);
    let one_str = t.insert(Layout::Struct(&[LAYOUT_STR]), 12, 0).unwrap();
    let union = t.insert(Layout::Union(UnionLayout::NonNullableUnwrapped(one_str)), 4, 16).unwrap();
    let (code, procs) = code_of(&t, union);
    assert_eq!(code, [Op::Call { union }]);
    assert_eq!(
        procs.body(union),
        Some(&Body::Only {
            variant: one_str,
            code: vec![
                store(0, 4, Word::ExtraOffset),
                Op::Enter {
                    reserve: 16,
                    code: vec![
                        Op::Field { index: 0, code: vec![Op::StrCloneTo { header: 12 }] },
                        Op::Advance { bytes: 12 },
                    ],
                },
            ],
        })
    );
}

#[test]
fn unions_that_call_one_another_are_all_generated() {
    // a tree whose children are a list of trees: two unions, each reaches
    // the other through a recursive pointer
    let mut t = LayoutInterner::new(PtrWidth::Bytes8);
    let to_forest = t.insert(Layout::RecursivePointer(13), 8, 0).unwrap();
    let node = t.insert(Layout::Struct(&[LAYOUT_U64, 8]), 16, 0).unwrap();
    let tree = t.insert(Layout::Union(UnionLayout::NonNullableUnwrapped(9)), 8, 16).unwrap();
    let to_tree = t.insert(Layout::RecursivePointer(10), 8, 0).unwrap();
    let cell = t.insert(Layout::Struct(&[11, 8]), 16, 0).unwrap();
    let forest = t
        .insert(Layout::Union(UnionLayout::NullableUnwrapped { nullable_id: true, other_fields: 12 }), 8, 16)
        .unwrap();
    assert_eq!((to_forest, node, tree, to_tree, cell, forest), (8, 9, 10, 11, 12, 13));
    assert!(t.is_closed());
    assert!(check_sizes(&t));
    let (code, procs) = code_of(&t, tree);
    assert_eq!(code, [Op::Call { union: tree }]);
    assert_eq!(generated(&procs), [tree, forest]);
    let leaf = |forest| Value::Tag(0, Box::new(Value::Struct(vec![Value::Plain, forest])));
    let two = Value::Tag(
        0,
        Box::new(Value::Struct(vec![
            leaf(Value::Null),
            Value::Tag(0, Box::new(Value::Struct(vec![leaf(Value::Null), Value::Null]))),
        ])),
    );
    let (writes, extra) = copy(&t, tree, &leaf(two), 0);
    assert_eq!(writes.len(), 11);
    assert_eq!(extra, 8 + 5 * 16);
}

#[test]
fn realistic_sizes_are_large_enough() {
    let t = table();
    assert!(t.is_closed());
    assert!(check_sizes(&t));
    for id in 0..t.len() {
        assert!(entry_sizes_fit(&t, id), "layout {}", id);
    }
    let (t, _, _) = pointer_unions(PtrWidth::Bytes8, 3);
    assert!(check_sizes(&t));
}

#[test]
fn sizes_that_are_too_small_are_found() {
    let fits = |layout: Layout<'static>, size, data_size| {
        let mut t = LayoutInterner::new(PtrWidth::Bytes8);
        t.insert(Layout::Struct(&[LAYOUT_STR]), 24, 0).unwrap();
        let id = t.insert(layout, size, data_size).unwrap();
        entry_sizes_fit(&t, id)
    };
    assert!(fits(Layout::Struct(&[LAYOUT_STR, LAYOUT_U64]), 32, 0));
    assert!(fits(Layout::Struct(&[LAYOUT_STR, LAYOUT_U64]), 40, 0));
    assert!(!fits(Layout::Struct(&[LAYOUT_STR, LAYOUT_U64]), 31, 0));
    assert!(fits(Layout::Builtin(Builtin::List(LAYOUT_U8)), 24, 0));
    assert!(!fits(Layout::Builtin(Builtin::List(LAYOUT_U8)), 16, 0));
    assert!(!fits(Layout::Builtin(Builtin::SetOf(LAYOUT_U8)), 23, 0));
    assert!(!fits(Layout::Builtin(Builtin::Dict(LAYOUT_U8, LAYOUT_U8)), 8, 0));
    assert!(fits(Layout::Boxed(LAYOUT_U8), 8, 0));
    assert!(!fits(Layout::Boxed(LAYOUT_U8), 4, 0));
    assert!(fits(Layout::Union(UnionLayout::NonRecursive(&[8, LAYOUT_UNIT])), 25, 0));
    assert!(!fits(Layout::Union(UnionLayout::NonRecursive(&[8, LAYOUT_UNIT])), 24, 0));
    assert!(fits(Layout::Union(UnionLayout::NonNullableUnwrapped(8)), 8, 24));
    assert!(!fits(Layout::Union(UnionLayout::NonNullableUnwrapped(8)), 8, 23));
    assert!(!fits(Layout::Union(UnionLayout::NonNullableUnwrapped(8)), 7, 24));
    // eight variants: the discriminant lies behind the payload
    let eight: &'static [InLayout] = &[8; 8];
    assert!(fits(Layout::Union(UnionLayout::Recursive(eight)), 8, 25));
    assert!(!fits(Layout::Union(UnionLayout::Recursive(eight)), 8, 24));
    // two variants: the discriminant is in the pointer
    assert!(fits(Layout::Union(UnionLayout::Recursive(&[8, 8])), 8, 24));
    let nullable = UnionLayout::NullableUnwrapped { nullable_id: false, other_fields: 8 };
    assert!(fits(Layout::Union(nullable), 8, 0));
    assert!(!fits(Layout::Union(nullable), 4, 0));
    let wrapped = UnionLayout::NullableWrapped { nullable_id: 0, other_tags: &[8, 8] };
    assert!(fits(Layout::Union(wrapped), 8, 24));
    assert!(!fits(Layout::Union(wrapped), 8, 20));

    // on a target with pointers of 4 bytes, a pointer has no room for the
    // discriminant and the offset of 32 bits each
    let mut t = LayoutInterner::new(PtrWidth::Bytes4);
    let one = t.insert(Layout::Struct(&[LAYOUT_U8]), 1, 0).unwrap();
    let tags: &'static [InLayout] = vec![one; 2].leak();
    let union = t.insert(Layout::Union(UnionLayout::Recursive(tags)), 4, 4).unwrap();
    assert!(!entry_sizes_fit(&t, union));
    assert!(!check_sizes(&t));
}

#[test]
fn a_table_that_is_not_closed_does_not_pass() {
    let mut t = LayoutInterner::new(PtrWidth::Bytes8);
    assert!(check_sizes(&t));
    t.insert(Layout::RecursivePointer(40), 8, 0).unwrap();
    assert!(!check_sizes(&t));
}

#[test]
fn a_call_for_what_is_there_generates_nothing() {
    let t = table();
    let mut procs = CloneProcs::new(&t);
    build_clone(&t, &mut procs, RESULT);
    assert_eq!(generated(&procs), [RESULT]);
    // the procedure of the list is not called for by a call of the other
    assert_eq!(build_clone_tag(&t, &mut procs, RESULT), [Op::Call { union: RESULT }]);
    assert_eq!(build_clone(&t, &mut procs, RESULT), [Op::Call { union: RESULT }]);
    assert_eq!(generated(&procs), [RESULT]);
    build_clone(&t, &mut procs, CONS_LIST);
    assert_eq!(generated(&procs), [CONS_LIST, RESULT]);
}

#[test]
fn what_calls_nothing_generates_nothing() {
    let t = table();
    let mut procs = CloneProcs::new(&t);
    for layout in [LAYOUT_U64, LAYOUT_STR, LIST_U64, LIST_STR, PLAIN_PAIR, STR_AND_INT, BOXED, CLOSURE, PLAIN_UNION, DICT] {
        build_clone(&t, &mut procs, layout);
        assert!(generated(&procs).is_empty(), "layout {}", layout);
    }
    build_clone_struct(&t, &mut procs, &[LAYOUT_STR, PLAIN_UNION], 41, 23);
    assert!(generated(&procs).is_empty());
}

#[test]
fn only_what_is_reached_is_generated() {
    // two unions that hold pointers; the code for the one does not call
    // for the procedure of the other
    let t = table();
    let (code, procs) = code_of(&t, CONS);
    assert_eq!(generated(&procs), [CONS_LIST]);
    assert!(procs.body(RESULT).is_none());
    let _ = code;
    let (_, procs) = code_of(&t, RESULT);
    assert_eq!(generated(&procs), [RESULT]);
    assert!(procs.body(CONS_LIST).is_none());
}
