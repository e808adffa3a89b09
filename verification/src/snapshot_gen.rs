//! Generation of the code that copies a value of a layout into a buffer.
//!
//! The code follows the layout. What holds no pointer is stored as it is.
//! A struct is copied field by field, a collection item by item. For a
//! union that holds pointers the code calls a procedure, which is generated
//! once for the union, when it is first called for. A recursive union
//! reaches itself through a recursive pointer; there the code calls the
//! procedure of the union, which is being generated or is there already.
//! So generation ends, however deep a value may be.
use crate::layout::{
    all_below, all_safe_to_memcpy, closed, lemma_all_safe_to_memcpy, safe_to_memcpy,
    Builtin, InLayout, Layout, LayoutEntry, LayoutInterner, PtrWidth, UnionLayout, };
use crate::snapshot_code::{
    cases_view, lemma_ops_view_empty, lemma_ops_view_push, ops_view, Body,
    BodyView, Case, CaseView, Op, OpView, Word,
};
use vstd::array::array_as_slice;
use vstd::prelude::*;

verus! {

/// The declared size of a layout where a value stands.
pub open spec fn size_at(t: Seq<LayoutEntry<'_>>, id: InLayout) -> u64 {
    t[id as int].stack_size as u64
}

/// The stores that write the reference to a union's payload into the
/// pointer's place. Where the union keeps the discriminant in the pointer,
/// the place takes the variant's number and the offset of the payload, 32
/// bits each. Else it takes the offset alone.
pub open spec fn pointer_stores(in_pointer: bool, tag_id: u16, ptr: PtrWidth) -> Seq<OpView> {
    if in_pointer {
        seq![
            OpView::Store { delta: 0, width: 4, word: Word::TagId(tag_id) },
            OpView::Store { delta: 4, width: 4, word: Word::ExtraOffset32 },
        ]
    } else {
        seq![OpView::Store { delta: 0, width: ptr.spec_bytes() as u64, word: Word::ExtraOffset }]
    }
}

/// The stores that write a collection itself: where its items go, and
/// their number twice, as length and as capacity.
pub open spec fn collection_header(ptr: PtrWidth) -> Seq<OpView> {
    let p = ptr.spec_bytes() as u64;
    seq![
        OpView::Store { delta: 0, width: p, word: Word::ExtraOffset },
        OpView::Store { delta: p, width: p, word: Word::Length },
        OpView::Store { delta: (2 * p) as u64, width: p, word: Word::Length },
    ]
}

/// The code that copies a value of the layout `id` of the table `t`.
pub open spec fn clone_ops(t: Seq<LayoutEntry<'_>>, ptr: PtrWidth, id: InLayout) -> Seq<OpView>
    decreases id, 1nat, 0nat,
{
    if id >= t.len() {
        Seq::empty()
    } else {
        match t[id as int].layout {
            Layout::Builtin(Builtin::Str) => seq![OpView::StrCloneTo { header: size_at(t, id) }],
            Layout::Builtin(Builtin::List(elem)) => collection_header(ptr).push(
                if safe_to_memcpy(t, elem) {
                    OpView::CopyElements { width: size_at(t, elem) }
                } else {
                    OpView::EachElement {
                        width: size_at(t, elem),
                        code: if elem < id {
                            clone_ops(t, ptr, elem)
                        } else {
                            Seq::empty()
                        },
                    }
                },
            ),
            Layout::Builtin(Builtin::SetOf(elem)) => collection_header(ptr).push(
                if safe_to_memcpy(t, elem) {
                    OpView::CopyElements { width: size_at(t, elem) }
                } else {
                    OpView::EachElement {
                        width: size_at(t, elem),
                        code: if elem < id {
                            clone_ops(t, ptr, elem)
                        } else {
                            Seq::empty()
                        },
                    }
                },
            ),
            Layout::Builtin(Builtin::Dict(key, value)) => collection_header(ptr).push(
                if safe_to_memcpy(t, key) && safe_to_memcpy(t, value) {
                    OpView::CopyElements { width: (size_at(t, key) + size_at(t, value)) as u64 }
                } else {
                    OpView::EachElement {
                        width: (size_at(t, key) + size_at(t, value)) as u64,
                        code: fields_ops(t, ptr, seq![key, value], 0, id),
                    }
                },
            ),
            Layout::Builtin(_) => seq![
                OpView::Store { delta: 0, width: size_at(t, id), word: Word::Data },
            ],
            Layout::Struct(fields) => struct_ops(t, ptr, fields@, size_at(t, id), id),
            Layout::LambdaSet(_) => Seq::empty(),
            Layout::Union(_) => if safe_to_memcpy(t, id) {
                seq![OpView::Store { delta: 0, width: size_at(t, id), word: Word::Data }]
            } else {
                seq![OpView::Call { union: id }]
            },
            Layout::Boxed(inner) => seq![
                OpView::Store { delta: 0, width: ptr.spec_bytes() as u64, word: Word::ExtraOffset },
                OpView::Deref {
                    code: seq![
                        OpView::Enter {
                            reserve: size_at(t, inner),
                            code: if inner < id {
                                clone_ops(t, ptr, inner)
                            } else {
                                Seq::empty()
                            },
                        },
                    ],
                },
            ],
            Layout::RecursivePointer(target) => seq![OpView::Call { union: target }],
        }
    }
}

/// The code that copies a struct of `width` bytes with the fields `fields`,
/// which all stand before `bound`: one store where no field holds a
/// pointer, else the code for each field in turn.
pub open spec fn struct_ops(
    t: Seq<LayoutEntry<'_>>,
    ptr: PtrWidth,
    fields: Seq<InLayout>,
    width: u64,
    bound: InLayout,
) -> Seq<OpView>
    decreases bound, 0nat, fields.len() + 1,
{
    if all_safe_to_memcpy(t, fields, bound) {
        seq![OpView::Store { delta: 0, width, word: Word::Data }]
    } else {
        fields_ops(t, ptr, fields, 0, bound)
    }
}

/// The code that copies the fields from number `from` on, one behind the
/// other: for each field its code, then `offset` moves over the field by
/// the declared size of its layout.
pub open spec fn fields_ops(
    t: Seq<LayoutEntry<'_>>,
    ptr: PtrWidth,
    fields: Seq<InLayout>,
    from: int,
    bound: InLayout,
) -> Seq<OpView>
    decreases bound, 0nat, fields.len() - from,
{
    if from < 0 || from >= fields.len() {
        Seq::empty()
    } else {
        seq![
            OpView::Field {
                index: from as usize,
                code: if fields[from] < bound {
                    clone_ops(t, ptr, fields[from])
                } else {
                    Seq::empty()
                },
            },
            OpView::Advance { bytes: size_at(t, fields[from]) },
        ] + fields_ops(t, ptr, fields, from + 1, bound)
    }
}

/// The case of a union for the variant `variant` under the number `tag_id`,
/// where the value is the payload itself with the discriminant behind it.
pub open spec fn inline_case(
    t: Seq<LayoutEntry<'_>>,
    ptr: PtrWidth,
    union: InLayout,
    tags: int,
    tag_id: u16,
    variant: InLayout,
) -> CaseView {
    let tag_layout = UnionLayout::tag_id_layout_for(tags);
    CaseView {
        tag_id,
        variant,
        tag_id_layout: Some(tag_layout),
        clears_tag_id: false,
        code: struct_ops(
            t,
            ptr,
            seq![variant, tag_layout],
            (size_at(t, variant) + UnionLayout::tag_id_width_for(tags)) as u64,
            union,
        ),
    }
}

/// The case of a union for the variant `variant` under the number `tag_id`,
/// where the value is a pointer to the payload: the reference to the
/// payload goes to the pointer's place, and the payload is copied to
/// `extra`, into `reserve` bytes, with what it points to behind it. Where
/// the discriminant is not in the pointer, it lies behind the payload and
/// is copied with it.
pub open spec fn pointer_case(
    t: Seq<LayoutEntry<'_>>,
    ptr: PtrWidth,
    union: InLayout,
    tags: int,
    in_pointer: bool,
    tag_behind: bool,
    reserve: u64,
    tag_id: u16,
    variant: InLayout,
) -> CaseView {
    let tag_layout = UnionLayout::tag_id_layout_for(tags);
    CaseView {
        tag_id,
        variant,
        tag_id_layout: if tag_behind {
            Some(tag_layout)
        } else {
            None
        },
        clears_tag_id: true,
        code: pointer_stores(in_pointer, tag_id, ptr).push(
            OpView::Enter {
                reserve,
                code: if tag_behind {
                    struct_ops(
                        t,
                        ptr,
                        seq![variant, tag_layout],
                        (size_at(t, variant) + UnionLayout::tag_id_width_for(tags)) as u64,
                        union,
                    )
                } else {
                    clone_ops(t, ptr, variant)
                },
            },
        ),
    }
}

/// The number of the variant that stands at `position` among the variants
/// with a payload, where the number `nullable_id` is taken by the null
/// pointer.
pub open spec fn tag_id_around(nullable_id: u16, position: int) -> u16 {
    if position < nullable_id {
        position as u16
    } else {
        (position + 1) as u16
    }
}

/// A switch over the cases, or nothing where there is no case.
pub open spec fn switch_of(cases: Seq<CaseView>) -> BodyView {
    if cases.len() == 0 {
        BodyView::Unreachable
    } else {
        BodyView::Switch { cases }
    }
}

/// The body of the procedure that copies a value of the union `id`.
pub open spec fn union_body(t: Seq<LayoutEntry<'_>>, ptr: PtrWidth, id: InLayout) -> BodyView {
    match t[id as int].layout {
        Layout::Union(union) => {
            let in_pointer = union.spec_stores_tag_id_in_pointer(ptr);
            let data_size = t[id as int].data_size as u64;
            match union {
                UnionLayout::NonRecursive(tags) => switch_of(
                    Seq::new(
                        tags@.len(),
                        |i: int| inline_case(t, ptr, id, tags@.len() as int, i as u16, tags@[i]),
                    ),
                ),
                UnionLayout::Recursive(tags) => switch_of(
                    Seq::new(
                        tags@.len(),
                        |i: int|
                            pointer_case(
                                t,
                                ptr,
                                id,
                                tags@.len() as int,
                                in_pointer,
                                !in_pointer,
                                data_size,
                                i as u16,
                                tags@[i],
                            ),
                    ),
                ),
                UnionLayout::NonNullableUnwrapped(fields) => BodyView::Only {
                    variant: fields,
                    code: pointer_stores(false, 0, ptr).push(
                        OpView::Enter { reserve: data_size, code: clone_ops(t, ptr, fields) },
                    ),
                },
                UnionLayout::NullableWrapped { nullable_id, other_tags } => BodyView::NullOr {
                    sentinel: ptr.spec_bytes() as u64,
                    other: Box::new(
                        switch_of(
                            Seq::new(
                                other_tags@.len(),
                                |i: int|
                                    pointer_case(
                                        t,
                                        ptr,
                                        id,
                                        (other_tags@.len() + 1) as int,
                                        in_pointer,
                                        false,
                                        data_size,
                                        tag_id_around(nullable_id, i),
                                        other_tags@[i],
                                    ),
                            ),
                        ),
                    ),
                },
                UnionLayout::NullableUnwrapped { other_fields, .. } => BodyView::NullOr {
                    sentinel: ptr.spec_bytes() as u64,
                    other: Box::new(
                        BodyView::Only {
                            variant: other_fields,
                            code: pointer_stores(false, 0, ptr).push(
                                OpView::Enter {
                                    reserve: size_at(t, other_fields),
                                    code: clone_ops(t, ptr, other_fields),
                                },
                            ),
                        },
                    ),
                },
            }
        },
        _ => BodyView::Unreachable,
    }
}

/// Values of the layout are copied by a procedure of their own: the layout
/// is a union that holds pointers.
pub open spec fn needs_procedure(t: Seq<LayoutEntry<'_>>, id: InLayout) -> bool {
    &&& id < t.len()
    &&& t[id as int].layout is Union
    &&& !safe_to_memcpy(t, id)
}

/// Every procedure that the code calls is among `present`.
pub open spec fn linked_ops(ops: Seq<OpView>, present: Set<InLayout>) -> bool
    decreases ops,
{
    if ops.len() == 0 {
        true
    } else {
        linked_op(ops[0], present) && linked_ops(ops.subrange(1, ops.len() as int), present)
    }
}

/// Every procedure that the operation calls is among `present`.
pub open spec fn linked_op(op: OpView, present: Set<InLayout>) -> bool
    decreases op,
{
    match op {
        OpView::Call { union } => present.contains(union),
        OpView::Field { code, .. } => linked_ops(code, present),
        OpView::Deref { code } => linked_ops(code, present),
        OpView::Enter { code, .. } => linked_ops(code, present),
        OpView::EachElement { code, .. } => linked_ops(code, present),
        _ => true,
    }
}

/// Every procedure that the body calls is among `present`.
pub open spec fn linked_body(body: BodyView, present: Set<InLayout>) -> bool
    decreases body,
{
    match body {
        BodyView::Unreachable => true,
        BodyView::Switch { cases } => forall|i: int|
            0 <= i < cases.len() ==> linked_ops((#[trigger] cases[i]).code, present),
        BodyView::Only { code, .. } => linked_ops(code, present),
        BodyView::NullOr { other, .. } => linked_body(*other, present),
    }
}

/// Code is linked if each of its operations is.
pub proof fn lemma_linked_all(ops: Seq<OpView>, present: Set<InLayout>)
    ensures
        linked_ops(ops, present) <==> forall|i: int|
            0 <= i < ops.len() ==> linked_op(#[trigger] ops[i], present),
    decreases ops.len(),
{
    if ops.len() > 0 {
        let rest = ops.subrange(1, ops.len() as int);
        lemma_linked_all(rest, present);
        if linked_ops(ops, present) {
            assert forall|i: int| 0 <= i < ops.len() implies linked_op(
                #[trigger] ops[i],
                present,
            ) by {
                if i > 0 {
                    assert(ops[i] == rest[i - 1]);
                }
            }
        }
        if forall|i: int| 0 <= i < ops.len() ==> linked_op(#[trigger] ops[i], present) {
            assert forall|i: int| 0 <= i < rest.len() implies linked_op(
                #[trigger] rest[i],
                present,
            ) by {
                assert(rest[i] == ops[i + 1]);
            }
        }
    }
}

/// Code with one more operation is linked if the code and the operation
/// are.
pub proof fn lemma_linked_push(ops: Seq<OpView>, op: OpView, present: Set<InLayout>)
    ensures
        linked_ops(ops.push(op), present) <==> linked_ops(ops, present) && linked_op(op, present),
{
    let pushed = ops.push(op);
    lemma_linked_all(ops, present);
    lemma_linked_all(pushed, present);
    if linked_ops(pushed, present) {
        assert forall|i: int| 0 <= i < ops.len() implies linked_op(#[trigger] ops[i], present) by {
            assert(ops[i] == pushed[i]);
        }
        assert(pushed[ops.len() as int] == op);
    }
    if linked_ops(ops, present) && linked_op(op, present) {
        assert forall|i: int| 0 <= i < pushed.len() implies linked_op(
            #[trigger] pushed[i],
            present,
        ) by {
            if i < ops.len() {
                assert(pushed[i] == ops[i]);
            }
        }
    }
}

/// Code that finds its procedures among some, finds them among more.
pub proof fn lemma_linked_ops_grows(ops: Seq<OpView>, fewer: Set<InLayout>, more: Set<InLayout>)
    requires
        fewer.subset_of(more),
        linked_ops(ops, fewer),
    ensures
        linked_ops(ops, more),
    decreases ops,
{
    if ops.len() > 0 {
        lemma_linked_op_grows(ops[0], fewer, more);
        lemma_linked_ops_grows(ops.subrange(1, ops.len() as int), fewer, more);
    }
}

/// An operation that finds its procedures among some, finds them among
/// more.
pub proof fn lemma_linked_op_grows(op: OpView, fewer: Set<InLayout>, more: Set<InLayout>)
    requires
        fewer.subset_of(more),
        linked_op(op, fewer),
    ensures
        linked_op(op, more),
    decreases op,
{
    match op {
        OpView::Field { code, .. } => lemma_linked_ops_grows(code, fewer, more),
        OpView::Deref { code } => lemma_linked_ops_grows(code, fewer, more),
        OpView::Enter { code, .. } => lemma_linked_ops_grows(code, fewer, more),
        OpView::EachElement { code, .. } => lemma_linked_ops_grows(code, fewer, more),
        _ => {},
    }
}

/// A body that finds its procedures among some, finds them among more.
pub proof fn lemma_linked_body_grows(body: BodyView, fewer: Set<InLayout>, more: Set<InLayout>)
    requires
        fewer.subset_of(more),
        linked_body(body, fewer),
    ensures
        linked_body(body, more),
    decreases body,
{
    match body {
        BodyView::Unreachable => {},
        BodyView::Switch { cases } => {
            assert forall|i: int| 0 <= i < cases.len() implies linked_ops(
                (#[trigger] cases[i]).code,
                more,
            ) by {
                lemma_linked_ops_grows(cases[i].code, fewer, more);
            }
        },
        BodyView::Only { code, .. } => lemma_linked_ops_grows(code, fewer, more),
        BodyView::NullOr { other, .. } => lemma_linked_body_grows(*other, fewer, more),
    }
}

/// In `all`, every procedure that was not there `before` finds the
/// procedures that it calls.
pub open spec fn closed_beyond(
    t: Seq<LayoutEntry<'_>>,
    ptr: PtrWidth,
    before: Set<InLayout>,
    all: Set<InLayout>,
) -> bool {
    forall|union: InLayout|
        all.contains(union) && !before.contains(union) ==> #[trigger] linked_body(
            union_body(t, ptr, union),
            all,
        )
}

/// The set `all` holds the procedures that were there `before` and every
/// procedure that the code calls for: those that the code calls, and those
/// that are called by procedures which were not there before.
pub open spec fn covers(
    t: Seq<LayoutEntry<'_>>,
    ptr: PtrWidth,
    ops: Seq<OpView>,
    before: Set<InLayout>,
    all: Set<InLayout>,
) -> bool {
    &&& before.subset_of(all)
    &&& linked_ops(ops, all)
    &&& closed_beyond(t, ptr, before, all)
}

/// As `covers`, for the body of a procedure.
pub open spec fn covers_body(
    t: Seq<LayoutEntry<'_>>,
    ptr: PtrWidth,
    body: BodyView,
    before: Set<InLayout>,
    all: Set<InLayout>,
) -> bool {
    &&& before.subset_of(all)
    &&& linked_body(body, all)
    &&& closed_beyond(t, ptr, before, all)
}

/// The procedures `after` are those that were there `before` and those
/// that the code calls for, and no others: they lie in every set that
/// holds these.
#[verifier::opaque]
pub open spec fn only_for(
    t: Seq<LayoutEntry<'_>>,
    ptr: PtrWidth,
    ops: Seq<OpView>,
    before: Set<InLayout>,
    after: Set<InLayout>,
) -> bool {
    forall|all: Set<InLayout>| #[trigger] covers(t, ptr, ops, before, all) ==> after.subset_of(all)
}

/// As `only_for`, for the body of a procedure.
#[verifier::opaque]
pub open spec fn only_for_body(
    t: Seq<LayoutEntry<'_>>,
    ptr: PtrWidth,
    body: BodyView,
    before: Set<InLayout>,
    after: Set<InLayout>,
) -> bool {
    forall|all: Set<InLayout>| #[trigger]
        covers_body(t, ptr, body, before, all) ==> after.subset_of(all)
}

/// Wherever the code `outer` finds its procedures, the code `inner` does:
/// what `inner` calls, `outer` calls.
#[verifier::opaque]
pub open spec fn part_of(inner: Seq<OpView>, outer: Seq<OpView>) -> bool {
    forall|all: Set<InLayout>| #[trigger] linked_ops(outer, all) ==> linked_ops(inner, all)
}

/// Wherever the body finds its procedures, the code `inner` does.
#[verifier::opaque]
pub open spec fn part_of_body(inner: Seq<OpView>, body: BodyView) -> bool {
    forall|all: Set<InLayout>| #[trigger] linked_body(body, all) ==> linked_ops(inner, all)
}

/// Where nothing is generated, nothing is generated that was not called
/// for.
pub proof fn lemma_only_for_same(
    t: Seq<LayoutEntry<'_>>,
    ptr: PtrWidth,
    ops: Seq<OpView>,
    before: Set<InLayout>,
)
    ensures
        only_for(t, ptr, ops, before, before),
{
    reveal(only_for);
}

/// As `lemma_only_for_same`, for the body of a procedure.
pub proof fn lemma_only_for_body_same(
    t: Seq<LayoutEntry<'_>>,
    ptr: PtrWidth,
    body: BodyView,
    before: Set<InLayout>,
)
    ensures
        only_for_body(t, ptr, body, before, before),
{
    reveal(only_for_body);
}

/// What is generated for a part of the code is generated for the code.
pub proof fn lemma_only_for_part(
    t: Seq<LayoutEntry<'_>>,
    ptr: PtrWidth,
    inner: Seq<OpView>,
    outer: Seq<OpView>,
    before: Set<InLayout>,
    entry: Set<InLayout>,
    after: Set<InLayout>,
)
    requires
        before.subset_of(entry),
        only_for(t, ptr, outer, before, entry),
        only_for(t, ptr, inner, entry, after),
        part_of(inner, outer),
    ensures
        only_for(t, ptr, outer, before, after),
{
    reveal(only_for);
    reveal(part_of);
    assert forall|all: Set<InLayout>| #[trigger] covers(t, ptr, outer, before, all) implies after.subset_of(
        all,
    ) by {
        assert(entry.subset_of(all));
        assert(linked_ops(inner, all));
        assert(closed_beyond(t, ptr, entry, all));
        assert(covers(t, ptr, inner, entry, all));
    }
}

/// What is generated for a part of a body is generated for the body.
pub proof fn lemma_only_for_body_part(
    t: Seq<LayoutEntry<'_>>,
    ptr: PtrWidth,
    inner: Seq<OpView>,
    body: BodyView,
    before: Set<InLayout>,
    entry: Set<InLayout>,
    after: Set<InLayout>,
)
    requires
        before.subset_of(entry),
        only_for_body(t, ptr, body, before, entry),
        only_for(t, ptr, inner, entry, after),
        part_of_body(inner, body),
    ensures
        only_for_body(t, ptr, body, before, after),
{
    reveal(only_for);
    reveal(only_for_body);
    reveal(part_of_body);
    assert forall|all: Set<InLayout>| #[trigger]
        covers_body(t, ptr, body, before, all) implies after.subset_of(all) by {
        assert(entry.subset_of(all));
        assert(linked_ops(inner, all));
        assert(closed_beyond(t, ptr, entry, all));
        assert(covers(t, ptr, inner, entry, all));
    }
}

/// What is generated for the body of a procedure that was called for, is
/// generated for the call.
pub proof fn lemma_only_for_call(
    t: Seq<LayoutEntry<'_>>,
    ptr: PtrWidth,
    union: InLayout,
    before: Set<InLayout>,
    marked: Set<InLayout>,
    after: Set<InLayout>,
)
    requires
        !before.contains(union),
        before.subset_of(marked),
        forall|id: InLayout| marked.contains(id) ==> id == union || before.contains(id),
        only_for_body(t, ptr, union_body(t, ptr, union), marked, after),
    ensures
        only_for(t, ptr, seq![OpView::Call { union }], before, after),
{
    reveal(only_for);
    reveal(only_for_body);
    let call = seq![OpView::Call { union }];
    assert forall|all: Set<InLayout>| #[trigger] covers(t, ptr, call, before, all) implies after.subset_of(
        all,
    ) by {
        lemma_linked_all(call, all);
        assert(linked_op(call[0], all));
        assert(all.contains(union));
        assert(linked_body(union_body(t, ptr, union), all));
        assert(marked.subset_of(all));
        assert(closed_beyond(t, ptr, marked, all));
        assert(covers_body(t, ptr, union_body(t, ptr, union), marked, all));
    }
}

/// Code is linked if its two pieces are.
pub proof fn lemma_linked_concat(first: Seq<OpView>, second: Seq<OpView>, present: Set<InLayout>)
    ensures
        linked_ops(first + second, present) <==> linked_ops(first, present) && linked_ops(
            second,
            present,
        ),
{
    let whole = first + second;
    lemma_linked_all(first, present);
    lemma_linked_all(second, present);
    lemma_linked_all(whole, present);
    if linked_ops(whole, present) {
        assert forall|i: int| 0 <= i < first.len() implies linked_op(#[trigger] first[i], present) by {
            assert(first[i] == whole[i]);
        }
        assert forall|i: int| 0 <= i < second.len() implies linked_op(
            #[trigger] second[i],
            present,
        ) by {
            assert(second[i] == whole[first.len() + i]);
        }
    }
    if linked_ops(first, present) && linked_ops(second, present) {
        assert forall|i: int| 0 <= i < whole.len() implies linked_op(#[trigger] whole[i], present) by {
            if i < first.len() {
                assert(whole[i] == first[i]);
            } else {
                assert(whole[i] == second[i - first.len()]);
            }
        }
    }
}

/// The code for a field is a part of the code for the fields.
pub proof fn lemma_field_is_part(
    t: Seq<LayoutEntry<'_>>,
    ptr: PtrWidth,
    fields: Seq<InLayout>,
    from: int,
    bound: InLayout,
    at: int,
    all: Set<InLayout>,
)
    requires
        0 <= from <= at < fields.len(),
        fields[at] < bound,
        linked_ops(fields_ops(t, ptr, fields, from, bound), all),
    ensures
        linked_ops(clone_ops(t, ptr, fields[at]), all),
    decreases at - from,
{
    let first = OpView::Field {
        index: from as usize,
        code: if fields[from] < bound {
            clone_ops(t, ptr, fields[from])
        } else {
            Seq::empty()
        },
    };
    let step = seq![first, OpView::Advance { bytes: size_at(t, fields[from]) }];
    let rest = fields_ops(t, ptr, fields, from + 1, bound);
    assert(fields_ops(t, ptr, fields, from, bound) == step + rest);
    lemma_linked_concat(step, rest, all);
    if from == at {
        lemma_linked_all(step, all);
        assert(linked_op(step[0], all));
    } else {
        lemma_field_is_part(t, ptr, fields, from + 1, bound, at, all);
    }
}

/// The payload's code is a part of the code of a case that copies the
/// payload behind a reference.
pub proof fn lemma_payload_is_part(
    in_pointer: bool,
    tag_id: u16,
    ptr: PtrWidth,
    reserve: u64,
    payload: Seq<OpView>,
)
    ensures
        part_of(
            payload,
            pointer_stores(in_pointer, tag_id, ptr).push(OpView::Enter { reserve, code: payload }),
        ),
{
    reveal(part_of);
    let stores = pointer_stores(in_pointer, tag_id, ptr);
    let enter = OpView::Enter { reserve, code: payload };
    assert forall|all: Set<InLayout>| #[trigger] linked_ops(stores.push(enter), all) implies linked_ops(
        payload,
        all,
    ) by {
        lemma_linked_push(stores, enter, all);
    }
}

/// The code of a case is a part of the switch over the cases.
pub proof fn lemma_case_is_part(cases: Seq<CaseView>, at: int)
    requires
        0 <= at < cases.len(),
    ensures
        part_of_body(cases[at].code, switch_of(cases)),
{
    reveal(part_of_body);
}

/// The code of each variant of a union whose value is the payload itself is
/// a part of the union's procedure.
pub proof fn lemma_inline_case_is_part(
    t: Seq<LayoutEntry<'_>>,
    ptr: PtrWidth,
    id: InLayout,
    tags: &[InLayout],
    at: int,
)
    requires
        id < t.len(),
        t[id as int].layout == Layout::Union(UnionLayout::NonRecursive(tags)),
        0 <= at < tags@.len(),
    ensures
        part_of_body(
            inline_case(t, ptr, id, tags@.len() as int, at as u16, tags@[at]).code,
            union_body(t, ptr, id),
        ),
{
    reveal(part_of_body);
    let cases = Seq::new(
        tags@.len(),
        |i: int| inline_case(t, ptr, id, tags@.len() as int, i as u16, tags@[i]),
    );
    assert(union_body(t, ptr, id) == switch_of(cases));
    lemma_case_is_part(cases, at);
}

/// The code of each variant's payload is a part of the procedure of a
/// union whose value is a pointer to the payload.
pub proof fn lemma_recursive_case_is_part(
    t: Seq<LayoutEntry<'_>>,
    ptr: PtrWidth,
    id: InLayout,
    tags: &[InLayout],
    at: int,
)
    requires
        id < t.len(),
        t[id as int].layout == Layout::Union(UnionLayout::Recursive(tags)),
        0 <= at < tags@.len(),
    ensures
        ({
            let in_pointer = UnionLayout::Recursive(tags).spec_stores_tag_id_in_pointer(ptr);
            let count = tags@.len() as int;
            part_of_body(
                if in_pointer {
                    clone_ops(t, ptr, tags@[at])
                } else {
                    struct_ops(
                        t,
                        ptr,
                        seq![tags@[at], UnionLayout::tag_id_layout_for(count)],
                        (size_at(t, tags@[at]) + UnionLayout::tag_id_width_for(count)) as u64,
                        id,
                    )
                },
                union_body(t, ptr, id),
            )
        }),
{
    reveal(part_of);
    reveal(part_of_body);
    let in_pointer = UnionLayout::Recursive(tags).spec_stores_tag_id_in_pointer(ptr);
    let count = tags@.len() as int;
    let data_size = t[id as int].data_size as u64;
    let cases = Seq::new(
        tags@.len(),
        |i: int|
            pointer_case(t, ptr, id, count, in_pointer, !in_pointer, data_size, i as u16, tags@[i]),
    );
    assert(union_body(t, ptr, id) == switch_of(cases));
    lemma_case_is_part(cases, at);
    let payload = if in_pointer {
        clone_ops(t, ptr, tags@[at])
    } else {
        struct_ops(
            t,
            ptr,
            seq![tags@[at], UnionLayout::tag_id_layout_for(count)],
            (size_at(t, tags@[at]) + UnionLayout::tag_id_width_for(count)) as u64,
            id,
        )
    };
    lemma_payload_is_part(in_pointer, at as u16, ptr, data_size, payload);
    assert(cases[at].code == pointer_stores(in_pointer, at as u16, ptr).push(
        OpView::Enter { reserve: data_size, code: payload },
    ));
}

/// The code of the payload is a part of the procedure of a union with one
/// variant.
pub proof fn lemma_only_case_is_part(
    t: Seq<LayoutEntry<'_>>,
    ptr: PtrWidth,
    id: InLayout,
    fields: InLayout,
)
    requires
        id < t.len(),
        t[id as int].layout == Layout::Union(UnionLayout::NonNullableUnwrapped(fields)),
    ensures
        part_of_body(clone_ops(t, ptr, fields), union_body(t, ptr, id)),
{
    reveal(part_of);
    reveal(part_of_body);
    let data_size = t[id as int].data_size as u64;
    lemma_payload_is_part(false, 0, ptr, data_size, clone_ops(t, ptr, fields));
}

/// The code of each variant's payload is a part of the procedure of a
/// union with a null pointer and several other variants.
pub proof fn lemma_wrapped_case_is_part(
    t: Seq<LayoutEntry<'_>>,
    ptr: PtrWidth,
    id: InLayout,
    nullable_id: u16,
    other_tags: &[InLayout],
    at: int,
)
    requires
        id < t.len(),
        t[id as int].layout == Layout::Union(
            UnionLayout::NullableWrapped { nullable_id, other_tags },
        ),
        0 <= at < other_tags@.len(),
    ensures
        part_of_body(clone_ops(t, ptr, other_tags@[at]), union_body(t, ptr, id)),
{
    reveal(part_of);
    reveal(part_of_body);
    let union = UnionLayout::NullableWrapped { nullable_id, other_tags };
    let in_pointer = union.spec_stores_tag_id_in_pointer(ptr);
    let data_size = t[id as int].data_size as u64;
    let cases = Seq::new(
        other_tags@.len(),
        |i: int|
            pointer_case(
                t,
                ptr,
                id,
                (other_tags@.len() + 1) as int,
                in_pointer,
                false,
                data_size,
                tag_id_around(nullable_id, i),
                other_tags@[i],
            ),
    );
    let body = union_body(t, ptr, id);
    assert(body == BodyView::NullOr {
        sentinel: ptr.spec_bytes() as u64,
        other: Box::new(switch_of(cases)),
    });
    lemma_case_is_part(cases, at);
    lemma_payload_is_part(
        in_pointer,
        tag_id_around(nullable_id, at),
        ptr,
        data_size,
        clone_ops(t, ptr, other_tags@[at]),
    );
    assert forall|all: Set<InLayout>| #[trigger] linked_body(body, all) implies linked_ops(
        clone_ops(t, ptr, other_tags@[at]),
        all,
    ) by {
        assert(linked_body(switch_of(cases), all));
        assert(linked_ops(cases[at].code, all));
    }
}

/// The code of the payload is a part of the procedure of a union of the
/// null pointer and one other variant.
pub proof fn lemma_unwrapped_case_is_part(
    t: Seq<LayoutEntry<'_>>,
    ptr: PtrWidth,
    id: InLayout,
    nullable_id: bool,
    other_fields: InLayout,
)
    requires
        id < t.len(),
        t[id as int].layout == Layout::Union(
            UnionLayout::NullableUnwrapped { nullable_id, other_fields },
        ),
    ensures
        part_of_body(clone_ops(t, ptr, other_fields), union_body(t, ptr, id)),
{
    reveal(part_of);
    reveal(part_of_body);
    let payload = clone_ops(t, ptr, other_fields);
    let reserve = size_at(t, other_fields);
    lemma_payload_is_part(false, 0, ptr, reserve, payload);
    let code = pointer_stores(false, 0, ptr).push(OpView::Enter { reserve, code: payload });
    let other = BodyView::Only { variant: other_fields, code };
    let body = union_body(t, ptr, id);
    assert(body == BodyView::NullOr { sentinel: ptr.spec_bytes() as u64, other: Box::new(other) });
    assert forall|all: Set<InLayout>| #[trigger] linked_body(body, all) implies linked_ops(
        payload,
        all,
    ) by {
        assert(linked_body(other, all));
        assert(linked_ops(code, all));
    }
}

/// What is known of the procedure of one layout.
#[derive(Debug, PartialEq, Eq)]
pub enum Slot {
    /// None was called for.
    Absent,
    /// Its body is being generated.
    Building,
    Done(Body),
}

/// The procedures that copy values of unions, one place for each layout of
/// the table.
pub struct CloneProcs {
    slots: Vec<Slot>,
}

/// Number of layouts for which no procedure was called for.
pub open spec fn absent_count(slots: Seq<Slot>) -> nat
    decreases slots.len(),
{
    if slots.len() == 0 {
        0
    } else {
        absent_count(slots.drop_last()) + if slots.last() is Absent {
            1nat
        } else {
            0nat
        }
    }
}

/// Filling a place leaves one layout less without a procedure, if the
/// place was empty, and as many as before, if it was not.
pub proof fn lemma_absent_update(slots: Seq<Slot>, at: int, slot: Slot)
    requires
        0 <= at < slots.len(),
        !(slot is Absent),
    ensures
        slots[at] is Absent ==> absent_count(slots.update(at, slot)) == absent_count(slots) - 1,
        !(slots[at] is Absent) ==> absent_count(slots.update(at, slot)) == absent_count(slots),
    decreases slots.len(),
{
    let updated = slots.update(at, slot);
    if at == slots.len() - 1 {
        assert(updated.drop_last() =~= slots.drop_last());
    } else {
        assert(updated.drop_last() =~= slots.drop_last().update(at, slot));
        lemma_absent_update(slots.drop_last(), at, slot);
    }
}

/// At most every layout is without a procedure.
pub proof fn lemma_absent_bound(slots: Seq<Slot>)
    ensures
        absent_count(slots) <= slots.len(),
    decreases slots.len(),
{
    if slots.len() > 0 {
        lemma_absent_bound(slots.drop_last());
    }
}

impl CloneProcs {
    pub closed spec fn slots(&self) -> Seq<Slot> {
        self.slots@
    }

    /// A procedure for the layout was called for.
    pub open spec fn present(&self, id: InLayout) -> bool {
        id < self.slots().len() && !(self.slots()[id as int] is Absent)
    }

    /// The layouts for which a procedure was called for.
    #[verifier::opaque]
    pub open spec fn present_set(&self) -> Set<InLayout> {
        Set::new(|id: InLayout| self.present(id))
    }

    /// The body of the procedure for the layout, if it was generated.
    pub open spec fn spec_body(&self, id: InLayout) -> Option<BodyView> {
        if id < self.slots().len() {
            match self.slots()[id as int] {
                Slot::Done(body) => Some(body@),
                _ => None,
            }
        } else {
            None
        }
    }

    /// Number of layouts for which no procedure was called for.
    pub open spec fn absent(&self) -> nat {
        absent_count(self.slots())
    }

    /// No body is being generated.
    pub open spec fn settled(&self) -> bool {
        forall|id: int| 0 <= id < self.slots().len() ==> !(#[trigger] self.slots()[id] is Building)
    }

    /// The invariant: there is a place for each layout of the table, and a
    /// generated body is the body of the procedure of a union that holds
    /// pointers, and calls only procedures that were called for.
    pub open spec fn wf(&self, table: &LayoutInterner) -> bool {
        &&& self.slots().len() == table@.len()
        &&& forall|id: int|
            0 <= id < self.slots().len() ==> ((#[trigger] self.slots()[id]) matches Slot::Done(body)
                ==> body@ == union_body(table@, table.spec_ptr_width(), id as usize)
                && needs_procedure(table@, id as usize) && linked_body(body@, self.present_set()))
    }

    /// What was there `before` is still there, what is being generated is
    /// what was being generated `before`, and no more layouts are without a
    /// procedure.
    pub open spec fn extends(&self, before: &Self) -> bool {
        &&& self.slots().len() == before.slots().len()
        &&& forall|id: int|
            0 <= id < self.slots().len() && !(before.slots()[id] is Absent) ==> (
            #[trigger] self.slots()[id]) == before.slots()[id]
        &&& forall|id: int|
            0 <= id < self.slots().len() ==> !(#[trigger] self.slots()[id] is Building
                && before.slots()[id] is Absent)
        &&& self.absent() <= before.absent()
    }

    /// No procedure for any layout of the table.
    pub fn new(table: &LayoutInterner) -> (procs: Self)
        ensures
            procs.wf(table),
            procs.settled(),
            forall|id: InLayout| !procs.present(id),
    {
        let mut slots: Vec<Slot> = Vec::new();
        let mut i: usize = 0;
        while i < table.len()
            invariant
                i <= table@.len(),
                slots@.len() == i,
                forall|k: int| 0 <= k < i ==> slots@[k] is Absent,
            decreases table@.len() - i,
        {
            slots.push(Slot::Absent);
            i += 1;
        }
        CloneProcs { slots }
    }

    /// Number of places, which is the number of layouts of the table.
    pub fn len(&self) -> (n: usize)
        ensures
            n == self.slots().len(),
    {
        self.slots.len()
    }

    /// The body of the procedure for the layout, if it was generated.
    pub fn body(&self, id: InLayout) -> (body: Option<&Body>)
        ensures
            match body {
                Some(found) => self.spec_body(id) == Some(found@),
                None => self.spec_body(id) is None,
            },
    {
        if id < self.slots.len() {
            match &self.slots[id] {
                Slot::Done(body) => Some(body),
                _ => None,
            }
        } else {
            None
        }
    }

    fn is_absent(&self, id: InLayout) -> (absent: bool)
        requires
            id < self.slots().len(),
        ensures
            absent == !self.present(id),
    {
        match &self.slots[id] {
            Slot::Absent => true,
            _ => false,
        }
    }

    fn put(&mut self, id: InLayout, slot: Slot)
        requires
            id < old(self).slots().len(),
        ensures
            final(self).slots() == old(self).slots().update(id as int, slot),
    {
        self.slots[id] = slot;
    }
}

fn push_op(code: &mut Vec<Op>, op: Op)
    ensures
        final(code)@ == old(code)@.push(op),
        ops_view(final(code)@) == ops_view(old(code)@).push(op@),
        forall|present: Set<InLayout>| #[trigger]
            linked_ops(ops_view(final(code)@), present) == (linked_ops(
                ops_view(old(code)@),
                present,
            ) && linked_op(op@, present)),
{
    proof {
        lemma_ops_view_push(code@, op);
        assert forall|present: Set<InLayout>| #[trigger]
            linked_ops(ops_view(code@.push(op)), present) == (linked_ops(ops_view(code@), present)
                && linked_op(op@, present)) by {
            lemma_linked_push(ops_view(code@), op@, present);
        }
    }
    code.push(op);
}

fn no_code() -> (code: Vec<Op>)
    ensures
        code@.len() == 0,
        ops_view(code@) == Seq::<OpView>::empty(),
        forall|present: Set<InLayout>| #[trigger] linked_ops(ops_view(code@), present),
{
    proof {
        lemma_ops_view_empty();
        assert forall|present: Set<InLayout>| #[trigger]
            linked_ops(Seq::<OpView>::empty(), present) by {
                }
    }
    Vec::new()
}

/// Adds the store of `width` bytes at `offset + delta` and returns where
/// the store ends, from `offset`.
pub fn build_copy(code: &mut Vec<Op>, delta: u64, width: u64, word: Word) -> (end: u64)
    requires
        delta + width <= u64::MAX,
    ensures
        end == delta + width,
        ops_view(final(code)@) == ops_view(old(code)@).push(OpView::Store { delta, width, word }),
        forall|present: Set<InLayout>| #[trigger]
            linked_ops(ops_view(final(code)@), present) == linked_ops(
                ops_view(old(code)@),
                present,
            ),
{
    push_op(code, Op::Store { delta, width, word });
    delta + width
}

/// Adds the stores that write the reference to a union's payload into the
/// pointer's place.
pub fn write_pointer_with_tag_id(code: &mut Vec<Op>, in_pointer: bool, tag_id: u16, ptr: PtrWidth)
    ensures
        ops_view(final(code)@) == ops_view(old(code)@) + pointer_stores(in_pointer, tag_id, ptr),
        forall|present: Set<InLayout>| #[trigger]
            linked_ops(ops_view(final(code)@), present) == linked_ops(
                ops_view(old(code)@),
                present,
            ),
{
    if in_pointer {
        // first, store tag id as u32
        let offset = build_copy(code, 0, 4, Word::TagId(tag_id));
        // then the offset, cut to u32, 4 bytes further on
        build_copy(code, offset, 4, Word::ExtraOffset32);
    } else {
        build_copy(code, 0, ptr.bytes() as u64, Word::ExtraOffset);
    }
    assert(ops_view(code@) =~= ops_view(old(code)@) + pointer_stores(in_pointer, tag_id, ptr));
}

/// Generates the code that copies a value of a layout. The procedures that
/// the code calls, and those that they call, are generated too where they
/// were not there.
#[verifier::rlimit(40)]
pub fn build_clone(table: &LayoutInterner, procs: &mut CloneProcs, layout: InLayout) -> (code: Vec<
    Op,
>)
    requires
        table.wf(),
        table.spec_is_closed(),
        old(procs).wf(table),
        table.contains(layout),
    ensures
        final(procs).wf(table),
        final(procs).extends(old(procs)),
        ops_view(code@) == clone_ops(table@, table.spec_ptr_width(), layout),
        linked_ops(ops_view(code@), final(procs).present_set()),
        only_for(
            table@,
            table.spec_ptr_width(),
            ops_view(code@),
            old(procs).present_set(),
            final(procs).present_set(),
        ),
        linked_ops(ops_view(code@), old(procs).present_set()) ==> final(procs).slots() == old(
            procs,
        ).slots(),
        table.spec_safe_to_memcpy(layout) ==> final(procs).slots() == old(procs).slots(),
    decreases old(procs).absent(), layout, 2nat,
{
    let ptr = table.ptr_width();
    let ghost before = old(procs).present_set();
    let code = match table.get(layout) {
        Layout::Builtin(builtin) => build_clone_builtin(table, procs, layout, builtin),
        Layout::Struct(field_layouts) => build_clone_struct(
            table,
            procs,
            field_layouts,
            table.stack_size(layout) as u64,
            layout,
        ),
        // Closures are never shown, so nothing of them is written.
        Layout::LambdaSet(_) => {
            let code = no_code();
            proof {
                lemma_only_for_same(table@, ptr, ops_view(code@), before);
            }
            code
        },
        Layout::Union(_) => {
            if table.safe_to_memcpy(layout) {
                let mut code = no_code();
                build_copy(&mut code, 0, table.stack_size(layout) as u64, Word::Data);
                assert(ops_view(code@) =~= clone_ops(table@, ptr, layout));
                proof {
                    lemma_only_for_same(table@, ptr, ops_view(code@), before);
                }
                code
            } else {
                build_clone_tag(table, procs, layout)
            }
        },
        Layout::Boxed(inner_layout) => {
            let mut code = no_code();
            // write the offset
            build_copy(&mut code, 0, ptr.bytes() as u64, Word::ExtraOffset);
            let inner_width = table.stack_size(inner_layout) as u64;
            let inner_code = build_clone(table, procs, inner_layout);
            let mut entered = no_code();
            push_op(&mut entered, Op::Enter { reserve: inner_width, code: inner_code });
            assert(ops_view(entered@) =~= seq![
                OpView::Enter {
                    reserve: inner_width,
                    code: clone_ops(table@, ptr, inner_layout),
                },
            ]);
            assert(linked_ops(ops_view(entered@), procs.present_set()));
            push_op(&mut code, Op::Deref { code: entered });
            assert(ops_view(code@) =~= clone_ops(table@, ptr, layout));
            assert(linked_ops(ops_view(code@), procs.present_set()));
            proof {
                let inner = clone_ops(table@, ptr, inner_layout);
                assert(part_of(inner, ops_view(code@))) by {
                    reveal(part_of);
                    assert forall|all: Set<InLayout>| #[trigger]
                        linked_ops(ops_view(code@), all) implies linked_ops(inner, all) by {
                        assert(linked_ops(ops_view(entered@), all));
                    }
                }
                lemma_only_for_same(table@, ptr, ops_view(code@), before);
                lemma_only_for_part(
                    table@,
                    ptr,
                    inner,
                    ops_view(code@),
                    before,
                    before,
                    procs.present_set(),
                );
            }
            code
        },
        Layout::RecursivePointer(target) => build_clone_tag(table, procs, target),
    };
    proof {
        if safe_to_memcpy(table@, layout) {
            lemma_plain_calls_nothing(table@, ptr, layout, before);
        }
        if linked_ops(ops_view(code@), before) {
            lemma_nothing_called_for(table, old(procs), procs, ops_view(code@));
        }
    }
    code
}

/// Generates the code that copies a value of a builtin layout.
#[verifier::rlimit(40)]
pub fn build_clone_builtin(
    table: &LayoutInterner,
    procs: &mut CloneProcs,
    layout: InLayout,
    builtin: Builtin,
) -> (code: Vec<Op>)
    requires
        table.wf(),
        table.spec_is_closed(),
        old(procs).wf(table),
        table.contains(layout),
        table.spec_get(layout) == Layout::Builtin(builtin),
    ensures
        final(procs).wf(table),
        final(procs).extends(old(procs)),
        ops_view(code@) == clone_ops(table@, table.spec_ptr_width(), layout),
        linked_ops(ops_view(code@), final(procs).present_set()),
        only_for(
            table@,
            table.spec_ptr_width(),
            ops_view(code@),
            old(procs).present_set(),
            final(procs).present_set(),
        ),
    decreases old(procs).absent(), layout, 1nat,
{
    let ptr = table.ptr_width();
    let p = ptr.bytes() as u64;
    let ghost before = old(procs).present_set();
    let mut code = no_code();
    match builtin {
        Builtin::Str => {
            push_op(&mut code, Op::StrCloneTo { header: table.stack_size(layout) as u64 });
            assert(ops_view(code@) =~= clone_ops(table@, ptr, layout));
        },
        Builtin::List(elem) | Builtin::SetOf(elem) => {
            // we only copy the elements we actually have (and skip extra capacity)
            let mut offset = build_copy(&mut code, 0, p, Word::ExtraOffset);
            offset = build_copy(&mut code, offset, p, Word::Length);
            build_copy(&mut code, offset, p, Word::Length);
            let element_width = table.stack_size(elem) as u64;
            if table.safe_to_memcpy(elem) {
                push_op(&mut code, Op::CopyElements { width: element_width });
            } else {
                let body = build_clone(table, procs, elem);
                push_op(&mut code, Op::EachElement { width: element_width, code: body });
                proof {
                    let inner = clone_ops(table@, ptr, elem);
                    assert(part_of(inner, ops_view(code@))) by {
                        reveal(part_of);
                    }
                    lemma_only_for_same(table@, ptr, ops_view(code@), before);
                    lemma_only_for_part(
                        table@,
                        ptr,
                        inner,
                        ops_view(code@),
                        before,
                        before,
                        procs.present_set(),
                    );
                }
            }
            assert(ops_view(code@) =~= clone_ops(table@, ptr, layout));
        },
        Builtin::Dict(key, value) => {
            let mut offset = build_copy(&mut code, 0, p, Word::ExtraOffset);
            offset = build_copy(&mut code, offset, p, Word::Length);
            build_copy(&mut code, offset, p, Word::Length);
            let entry_width = table.stack_size(key) as u64 + table.stack_size(value) as u64;
            let entry = [key, value];
            let entry_layouts = array_as_slice(&entry);
            proof {
                assert(entry_layouts@ =~= seq![key, value]);
                lemma_all_safe_to_memcpy(table@, entry_layouts@, layout);
            }
            if table.safe_to_memcpy(key) && table.safe_to_memcpy(value) {
                push_op(&mut code, Op::CopyElements { width: entry_width });
            } else {
                let body = build_clone_struct(table, procs, entry_layouts, entry_width, layout);
                let ghost inner = ops_view(body@);
                push_op(&mut code, Op::EachElement { width: entry_width, code: body });
                proof {
                    assert(part_of(inner, ops_view(code@))) by {
                        reveal(part_of);
                    }
                    lemma_only_for_same(table@, ptr, ops_view(code@), before);
                    lemma_only_for_part(
                        table@,
                        ptr,
                        inner,
                        ops_view(code@),
                        before,
                        before,
                        procs.present_set(),
                    );
                }
            }
            assert(ops_view(code@) =~= clone_ops(table@, ptr, layout));
        },
        _ => {
            build_copy(&mut code, 0, table.stack_size(layout) as u64, Word::Data);
            assert(ops_view(code@) =~= clone_ops(table@, ptr, layout));
        },
    }
    assert(linked_ops(ops_view(code@), procs.present_set()));
    proof {
        if procs.present_set() == before {
            lemma_only_for_same(table@, ptr, ops_view(code@), before);
        }
    }
    code
}

/// Generates the code that copies a struct of `width` bytes with the
/// fields `field_layouts`, which are parts of the layout `bound`.
#[verifier::rlimit(40)]
pub fn build_clone_struct(
    table: &LayoutInterner,
    procs: &mut CloneProcs,
    field_layouts: &[InLayout],
    width: u64,
    bound: InLayout,
) -> (code: Vec<Op>)
    requires
        table.wf(),
        table.spec_is_closed(),
        old(procs).wf(table),
        bound <= table@.len(),
        all_below(field_layouts@, bound as int),
    ensures
        final(procs).wf(table),
        final(procs).extends(old(procs)),
        linked_ops(ops_view(code@), final(procs).present_set()),
        ops_view(code@) == struct_ops(
            table@,
            table.spec_ptr_width(),
            field_layouts@,
            width,
            bound,
        ),
        only_for(
            table@,
            table.spec_ptr_width(),
            ops_view(code@),
            old(procs).present_set(),
            final(procs).present_set(),
        ),
    decreases old(procs).absent(), bound, 0nat,
{
    let ptr = table.ptr_width();
    let ghost before_set = old(procs).present_set();
    let ghost whole = fields_ops(table@, ptr, field_layouts@, 0, bound);
    let mut code = no_code();
    if table.all_safe_to_memcpy(field_layouts, bound) {
        build_copy(&mut code, 0, width, Word::Data);
        assert(ops_view(code@) =~= struct_ops(table@, ptr, field_layouts@, width, bound));
        proof {
            lemma_only_for_same(table@, ptr, ops_view(code@), before_set);
        }
        return code;
    }
    proof {
        lemma_only_for_same(table@, ptr, whole, before_set);
    }
    let mut i: usize = 0;
    while i < field_layouts.len()
        invariant
            table.wf(),
            table.spec_is_closed(),
            procs.wf(table),
            procs.extends(old(procs)),
            bound <= table@.len(),
            all_below(field_layouts@, bound as int),
            ptr == table.spec_ptr_width(),
            i <= field_layouts@.len(),
            linked_ops(ops_view(code@), procs.present_set()),
            before_set == old(procs).present_set(),
            whole == fields_ops(table@, ptr, field_layouts@, 0, bound),
            only_for(table@, ptr, whole, before_set, procs.present_set()),
            ops_view(code@) + fields_ops(table@, ptr, field_layouts@, i as int, bound)
                == fields_ops(table@, ptr, field_layouts@, 0, bound),
        decreases field_layouts@.len() - i,
    {
        let field_layout = field_layouts[i];
        let ghost before = ops_view(code@);
        let ghost entry = *procs;
        let field_code = build_clone(table, procs, field_layout);
        proof {
            lemma_extends_present(&entry, procs);
            lemma_linked_ops_grows(before, entry.present_set(), procs.present_set());
            lemma_extends_present(old(procs), &entry);
            let inner = clone_ops(table@, ptr, field_layout);
            assert(part_of(inner, whole)) by {
                reveal(part_of);
                assert forall|all: Set<InLayout>| #[trigger] linked_ops(whole, all) implies linked_ops(
                    inner,
                    all,
                ) by {
                    lemma_field_is_part(table@, ptr, field_layouts@, 0, bound, i as int, all);
                }
            }
            lemma_only_for_part(
                table@,
                ptr,
                inner,
                whole,
                before_set,
                entry.present_set(),
                procs.present_set(),
            );
        }
        let field_width = table.stack_size(field_layout) as u64;
        push_op(&mut code, Op::Field { index: i, code: field_code });
        push_op(&mut code, Op::Advance { bytes: field_width });
        proof {
            let rest = fields_ops(table@, ptr, field_layouts@, i + 1, bound);
            let step = seq![
                OpView::Field { index: i, code: clone_ops(table@, ptr, field_layout) },
                OpView::Advance { bytes: field_width },
            ];
            assert(fields_ops(table@, ptr, field_layouts@, i as int, bound) == step + rest);
            assert(ops_view(code@) =~= before + step);
            assert((before + step) + rest =~= before + (step + rest));
            lemma_extends_trans(old(procs), &entry, procs);
        }
        i += 1;
    }
    assert(ops_view(code@) =~= fields_ops(table@, ptr, field_layouts@, 0, bound));
    code
}

/// Generates the call of the procedure that copies a value of a union, and
/// the procedure too if it was not called for before.
#[verifier::rlimit(40)]
pub fn build_clone_tag(table: &LayoutInterner, procs: &mut CloneProcs, union: InLayout) -> (code:
    Vec<Op>)
    requires
        table.wf(),
        table.spec_is_closed(),
        old(procs).wf(table),
        needs_procedure(table@, union),
    ensures
        final(procs).wf(table),
        final(procs).extends(old(procs)),
        final(procs).present(union),
        ops_view(code@) == seq![OpView::Call { union }],
        linked_ops(ops_view(code@), final(procs).present_set()),
        only_for(
            table@,
            table.spec_ptr_width(),
            ops_view(code@),
            old(procs).present_set(),
            final(procs).present_set(),
        ),
        old(procs).present(union) ==> final(procs).slots() == old(procs).slots(),
    decreases old(procs).absent(), 0nat, 0nat,
{
    let ptr = table.ptr_width();
    let ghost call = seq![OpView::Call { union }];
    if procs.is_absent(union) {
        procs.put(union, Slot::Building);
        proof {
            lemma_put(table, old(procs), procs, union, Slot::Building);
        }
        let ghost marked = *procs;
        let body = build_clone_tag_help(table, procs, union);
        let ghost built = *procs;
        procs.put(union, Slot::Done(body));
        proof {
            assert(built.slots()[union as int] == marked.slots()[union as int]);
            lemma_put(table, &built, procs, union, procs.slots()[union as int]);
            assert(procs.absent() <= old(procs).absent());
            assert(procs.extends(old(procs)));
            lemma_present(old(procs), union);
            lemma_present(&built, union);
            assert(procs.present_set().subset_of(built.present_set()));
            lemma_only_for_body_shrinks(
                table@,
                ptr,
                union_body(table@, ptr, union),
                marked.present_set(),
                built.present_set(),
                procs.present_set(),
            );
            lemma_only_for_call(
                table@,
                ptr,
                union,
                old(procs).present_set(),
                marked.present_set(),
                procs.present_set(),
            );
        }
    } else {
        proof {
            lemma_only_for_same(table@, ptr, call, old(procs).present_set());
        }
    }
    let mut code = no_code();
    push_op(&mut code, Op::Call { union });
    proof {
        assert(ops_view(code@) =~= call);
        lemma_present(procs, union);
    }
    code
}

/// Generates the body of the procedure that copies a value of a union.
#[verifier::rlimit(40)]
pub fn build_clone_tag_help(table: &LayoutInterner, procs: &mut CloneProcs, union: InLayout) -> (body:
    Body)
    requires
        table.wf(),
        table.spec_is_closed(),
        old(procs).wf(table),
        table.contains(union),
        table.spec_get(union) is Union,
    ensures
        final(procs).wf(table),
        final(procs).extends(old(procs)),
        body@ == union_body(table@, table.spec_ptr_width(), union),
        linked_body(body@, final(procs).present_set()),
        only_for_body(
            table@,
            table.spec_ptr_width(),
            union_body(table@, table.spec_ptr_width(), union),
            old(procs).present_set(),
            final(procs).present_set(),
        ),
    decreases old(procs).absent(), table@.len() + 1, 0nat,
{
    let union_layout = match table.get(union) {
        Layout::Union(union_layout) => union_layout,
        _ => {
            return Body::Unreachable;
        },
    };
    match union_layout {
        UnionLayout::NonRecursive(tags) => clone_non_recursive(
            table,
            procs,
            union,
            union_layout,
            tags,
        ),
        UnionLayout::Recursive(tags) => clone_recursive(table, procs, union, union_layout, tags),
        UnionLayout::NonNullableUnwrapped(fields) => clone_non_nullable_unwrapped(
            table,
            procs,
            union,
            union_layout,
            fields,
        ),
        UnionLayout::NullableWrapped { nullable_id, other_tags } => clone_nullable_wrapped(
            table,
            procs,
            union,
            union_layout,
            nullable_id,
            other_tags,
        ),
        UnionLayout::NullableUnwrapped { nullable_id, other_fields } => clone_nullable_unwrapped(
            table,
            procs,
            union,
            union_layout,
            nullable_id,
            other_fields,
        ),
    }
}

/// The body for a union whose value is the payload itself: one case for each
/// variant, which copies the payload and the discriminant behind it in
/// place.
#[verifier::rlimit(40)]
fn clone_non_recursive(
    table: &LayoutInterner,
    procs: &mut CloneProcs,
    union: InLayout,
    union_layout: UnionLayout,
    tags: &[InLayout],
) -> (body: Body)
    requires
        table.wf(),
        table.spec_is_closed(),
        old(procs).wf(table),
        table.contains(union),
        table.spec_get(union) == Layout::Union(union_layout),
        union_layout == UnionLayout::NonRecursive(tags),
    ensures
        final(procs).wf(table),
        final(procs).extends(old(procs)),
        body@ == union_body(table@, table.spec_ptr_width(), union),
        linked_body(body@, final(procs).present_set()),
        only_for_body(
            table@,
            table.spec_ptr_width(),
            union_body(table@, table.spec_ptr_width(), union),
            old(procs).present_set(),
            final(procs).present_set(),
        ),
    decreases old(procs).absent(), table@.len(), 0nat,
{
    let ptr = table.ptr_width();
    let tag_layout = union_layout.tag_id_layout();
    let tag_width = union_layout.tag_id_width() as u64;
    let mut cases: Vec<Case> = Vec::new();
    let mut tag_id: usize = 0;
    proof {
        lemma_only_for_body_same(
            table@,
            ptr,
            union_body(table@, ptr, union),
            old(procs).present_set(),
        );
    }
    while tag_id < tags.len()
        invariant
        table.wf(),
        table.spec_is_closed(),
        procs.wf(table),
        procs.extends(old(procs)),
        table.contains(union),
        table.spec_get(union) == Layout::Union(union_layout),
        ptr == table.spec_ptr_width(),
        only_for_body(
            table@,
            ptr,
            union_body(table@, ptr, union),
            old(procs).present_set(),
            procs.present_set(),
        ),
        forall|k: int|
            0 <= k < cases@.len() ==> linked_ops(
                (#[trigger] cases@[k])@.code,
                procs.present_set(),
            ),
            union_layout == UnionLayout::NonRecursive(tags),
            tag_layout == UnionLayout::tag_id_layout_for(tags@.len() as int),
            tag_width == UnionLayout::tag_id_width_for(tags@.len() as int),
            tag_id <= tags@.len(),
            cases@.len() == tag_id,
            forall|k: int|
                0 <= k < tag_id ==> (#[trigger] cases@[k])@ == inline_case(
                    table@,
                    ptr,
                    union,
                    tags@.len() as int,
                    k as u16,
                    tags@[k],
                ),
        decreases tags@.len() - tag_id,
    {
        let variant = tags[tag_id];
        let ghost entry = *procs;
        let ghost done = cases@;
        let pair = [variant, tag_layout];
        let pair_layouts = array_as_slice(&pair);
        assert(pair_layouts@ =~= seq![variant, tag_layout]);
        let width = table.stack_size(variant) as u64 + tag_width;
        let code = build_clone_struct(table, procs, pair_layouts, width, union);
        proof {
            lemma_extends_trans(old(procs), &entry, procs);
            lemma_extends_present(&entry, procs);
            lemma_extends_present(old(procs), &entry);
            lemma_inline_case_is_part(table@, ptr, union, tags, tag_id as int);
            lemma_only_for_body_part(
                table@,
                ptr,
                ops_view(code@),
                union_body(table@, ptr, union),
                old(procs).present_set(),
                entry.present_set(),
                procs.present_set(),
            );
            assert forall|k: int| 0 <= k < done.len() implies linked_ops(
                (#[trigger] done[k])@.code,
                procs.present_set(),
            ) by {
                lemma_linked_ops_grows(done[k]@.code, entry.present_set(), procs.present_set());
            }
        }
        cases.push(
            Case {
                tag_id: tag_id as u16,
                variant,
                tag_id_layout: Some(tag_layout),
                clears_tag_id: false,
                code,
            },
        );
        tag_id += 1;
    }
    proof {
        assert(cases_view(cases@) =~= Seq::new(
            tags@.len(),
            |i: int| inline_case(table@, ptr, union, tags@.len() as int, i as u16, tags@[i]),
        ));
    }
    switch_of_cases(cases, Ghost(procs.present_set()))
}

/// The body for a union whose value is a pointer to the payload: one case
/// for each variant.
#[verifier::rlimit(40)]
fn clone_recursive(
    table: &LayoutInterner,
    procs: &mut CloneProcs,
    union: InLayout,
    union_layout: UnionLayout,
    tags: &[InLayout],
) -> (body: Body)
    requires
        table.wf(),
        table.spec_is_closed(),
        old(procs).wf(table),
        table.contains(union),
        table.spec_get(union) == Layout::Union(union_layout),
        union_layout == UnionLayout::Recursive(tags),
    ensures
        final(procs).wf(table),
        final(procs).extends(old(procs)),
        body@ == union_body(table@, table.spec_ptr_width(), union),
        linked_body(body@, final(procs).present_set()),
        only_for_body(
            table@,
            table.spec_ptr_width(),
            union_body(table@, table.spec_ptr_width(), union),
            old(procs).present_set(),
            final(procs).present_set(),
        ),
    decreases old(procs).absent(), table@.len(), 0nat,
{
    let ptr = table.ptr_width();
    let in_pointer = union_layout.stores_tag_id_in_pointer(ptr);
    let data_size = table.data_size(union) as u64;
    let tag_layout = union_layout.tag_id_layout();
    let tag_width = union_layout.tag_id_width() as u64;
    let mut cases: Vec<Case> = Vec::new();
    let mut tag_id: usize = 0;
    proof {
        lemma_only_for_body_same(
            table@,
            ptr,
            union_body(table@, ptr, union),
            old(procs).present_set(),
        );
    }
    while tag_id < tags.len()
        invariant
        table.wf(),
        table.spec_is_closed(),
        procs.wf(table),
        procs.extends(old(procs)),
        table.contains(union),
        table.spec_get(union) == Layout::Union(union_layout),
        ptr == table.spec_ptr_width(),
        only_for_body(
            table@,
            ptr,
            union_body(table@, ptr, union),
            old(procs).present_set(),
            procs.present_set(),
        ),
        forall|k: int|
            0 <= k < cases@.len() ==> linked_ops(
                (#[trigger] cases@[k])@.code,
                procs.present_set(),
            ),
            union_layout == UnionLayout::Recursive(tags),
            in_pointer == union_layout.spec_stores_tag_id_in_pointer(ptr),
            data_size == table.spec_data_size(union) as u64,
            tag_layout == UnionLayout::tag_id_layout_for(tags@.len() as int),
            tag_width == UnionLayout::tag_id_width_for(tags@.len() as int),
            tag_id <= tags@.len(),
            cases@.len() == tag_id,
            forall|k: int|
                0 <= k < tag_id ==> (#[trigger] cases@[k])@ == pointer_case(
                    table@,
                    ptr,
                    union,
                    tags@.len() as int,
                    in_pointer,
                    !in_pointer,
                    data_size,
                    k as u16,
                    tags@[k],
                ),
        decreases tags@.len() - tag_id,
    {
        let variant = tags[tag_id];
        let ghost entry = *procs;
        let ghost done = cases@;
        let mut code = no_code();
        // write the "pointer" of the current offset
        write_pointer_with_tag_id(&mut code, in_pointer, tag_id as u16, ptr);
        let payload = if in_pointer {
            build_clone(table, procs, variant)
        } else {
            let pair = [variant, tag_layout];
            let pair_layouts = array_as_slice(&pair);
            assert(pair_layouts@ =~= seq![variant, tag_layout]);
            let width = table.stack_size(variant) as u64 + tag_width;
            build_clone_struct(table, procs, pair_layouts, width, union)
        };
        proof {
            lemma_extends_trans(old(procs), &entry, procs);
            lemma_extends_present(&entry, procs);
            lemma_extends_present(old(procs), &entry);
            lemma_recursive_case_is_part(table@, ptr, union, tags, tag_id as int);
            lemma_only_for_body_part(
                table@,
                ptr,
                ops_view(payload@),
                union_body(table@, ptr, union),
                old(procs).present_set(),
                entry.present_set(),
                procs.present_set(),
            );
            assert forall|k: int| 0 <= k < done.len() implies linked_ops(
                (#[trigger] done[k])@.code,
                procs.present_set(),
            ) by {
                lemma_linked_ops_grows(done[k]@.code, entry.present_set(), procs.present_set());
            }
        }
        push_op(&mut code, Op::Enter { reserve: data_size, code: payload });
        assert(linked_ops(ops_view(code@), procs.present_set()));
        cases.push(
            Case {
                tag_id: tag_id as u16,
                variant,
                tag_id_layout: if in_pointer {
                    None
                } else {
                    Some(tag_layout)
                },
                clears_tag_id: true,
                code,
            },
        );
        tag_id += 1;
    }
    proof {
        assert(cases_view(cases@) =~= Seq::new(
            tags@.len(),
            |i: int|
                pointer_case(
                    table@,
                    ptr,
                    union,
                    tags@.len() as int,
                    in_pointer,
                    !in_pointer,
                    data_size,
                    i as u16,
                    tags@[i],
                ),
        ));
    }
    switch_of_cases(cases, Ghost(procs.present_set()))
}

/// The body for a union with one variant, whose value is a pointer to the
/// payload.
#[verifier::rlimit(40)]
fn clone_non_nullable_unwrapped(
    table: &LayoutInterner,
    procs: &mut CloneProcs,
    union: InLayout,
    union_layout: UnionLayout,
    fields: InLayout,
) -> (body: Body)
    requires
        table.wf(),
        table.spec_is_closed(),
        old(procs).wf(table),
        table.contains(union),
        table.spec_get(union) == Layout::Union(union_layout),
        union_layout == UnionLayout::NonNullableUnwrapped(fields),
    ensures
        final(procs).wf(table),
        final(procs).extends(old(procs)),
        body@ == union_body(table@, table.spec_ptr_width(), union),
        linked_body(body@, final(procs).present_set()),
        only_for_body(
            table@,
            table.spec_ptr_width(),
            union_body(table@, table.spec_ptr_width(), union),
            old(procs).present_set(),
            final(procs).present_set(),
        ),
    decreases old(procs).absent(), table@.len(), 0nat,
{
    let ptr = table.ptr_width();
    let data_size = table.data_size(union) as u64;
    let mut code = no_code();
    write_pointer_with_tag_id(&mut code, false, 0, ptr);
    let payload = build_clone(table, procs, fields);
    proof {
        let before_set = old(procs).present_set();
        let body = union_body(table@, ptr, union);
        lemma_only_for_body_same(table@, ptr, body, before_set);
        lemma_only_case_is_part(table@, ptr, union, fields);
        lemma_only_for_body_part(
            table@,
            ptr,
            ops_view(payload@),
            body,
            before_set,
            before_set,
            procs.present_set(),
        );
    }
    push_op(&mut code, Op::Enter { reserve: data_size, code: payload });
    assert(linked_ops(ops_view(code@), procs.present_set()));
    Body::Only { variant: fields, code }
}

/// The body for a union of which one variant is the null pointer and the
/// others are pointers to their payloads.
#[verifier::rlimit(40)]
fn clone_nullable_wrapped(
    table: &LayoutInterner,
    procs: &mut CloneProcs,
    union: InLayout,
    union_layout: UnionLayout,
    nullable_id: u16,
    other_tags: &[InLayout],
) -> (body: Body)
    requires
        table.wf(),
        table.spec_is_closed(),
        old(procs).wf(table),
        table.contains(union),
        table.spec_get(union) == Layout::Union(union_layout),
        union_layout == (UnionLayout::NullableWrapped { nullable_id, other_tags }),
    ensures
        final(procs).wf(table),
        final(procs).extends(old(procs)),
        body@ == union_body(table@, table.spec_ptr_width(), union),
        linked_body(body@, final(procs).present_set()),
        only_for_body(
            table@,
            table.spec_ptr_width(),
            union_body(table@, table.spec_ptr_width(), union),
            old(procs).present_set(),
            final(procs).present_set(),
        ),
    decreases old(procs).absent(), table@.len(), 0nat,
{
    let ptr = table.ptr_width();
    let in_pointer = union_layout.stores_tag_id_in_pointer(ptr);
    let data_size = table.data_size(union) as u64;
    let mut cases: Vec<Case> = Vec::new();
    let mut position: usize = 0;
    proof {
        lemma_only_for_body_same(
            table@,
            ptr,
            union_body(table@, ptr, union),
            old(procs).present_set(),
        );
    }
    while position < other_tags.len()
        invariant
        table.wf(),
        table.spec_is_closed(),
        procs.wf(table),
        procs.extends(old(procs)),
        table.contains(union),
        table.spec_get(union) == Layout::Union(union_layout),
        ptr == table.spec_ptr_width(),
        only_for_body(
            table@,
            ptr,
            union_body(table@, ptr, union),
            old(procs).present_set(),
            procs.present_set(),
        ),
        forall|k: int|
            0 <= k < cases@.len() ==> linked_ops(
                (#[trigger] cases@[k])@.code,
                procs.present_set(),
            ),
            union_layout == (UnionLayout::NullableWrapped { nullable_id, other_tags }),
            in_pointer == union_layout.spec_stores_tag_id_in_pointer(ptr),
            data_size == table.spec_data_size(union) as u64,
            position <= other_tags@.len(),
            cases@.len() == position,
            forall|k: int|
                0 <= k < position ==> (#[trigger] cases@[k])@ == pointer_case(
                    table@,
                    ptr,
                    union,
                    (other_tags@.len() + 1) as int,
                    in_pointer,
                    false,
                    data_size,
                    tag_id_around(nullable_id, k),
                    other_tags@[k],
                ),
        decreases other_tags@.len() - position,
    {
        // the number of the null pointer is left out
        let tag_id: u16 = if position < nullable_id as usize {
            position as u16
        } else {
            (position + 1) as u16
        };
        let variant = other_tags[position];
        let ghost entry = *procs;
        let ghost done = cases@;
        let mut code = no_code();
        // write the "pointer" of the current offset
        write_pointer_with_tag_id(&mut code, in_pointer, tag_id, ptr);
        let payload = build_clone(table, procs, variant);
        proof {
            lemma_extends_trans(old(procs), &entry, procs);
            lemma_extends_present(&entry, procs);
            lemma_extends_present(old(procs), &entry);
            lemma_wrapped_case_is_part(table@, ptr, union, nullable_id, other_tags, position as int);
            lemma_only_for_body_part(
                table@,
                ptr,
                ops_view(payload@),
                union_body(table@, ptr, union),
                old(procs).present_set(),
                entry.present_set(),
                procs.present_set(),
            );
            assert forall|k: int| 0 <= k < done.len() implies linked_ops(
                (#[trigger] done[k])@.code,
                procs.present_set(),
            ) by {
                lemma_linked_ops_grows(done[k]@.code, entry.present_set(), procs.present_set());
            }
        }
        push_op(&mut code, Op::Enter { reserve: data_size, code: payload });
        assert(linked_ops(ops_view(code@), procs.present_set()));
        cases.push(Case { tag_id, variant, tag_id_layout: None, clears_tag_id: true, code });
        position += 1;
    }
    proof {
        assert(cases_view(cases@) =~= Seq::new(
            other_tags@.len(),
            |i: int|
                pointer_case(
                    table@,
                    ptr,
                    union,
                    (other_tags@.len() + 1) as int,
                    in_pointer,
                    false,
                    data_size,
                    tag_id_around(nullable_id, i),
                    other_tags@[i],
                ),
        ));
    }
    let other = switch_of_cases(cases, Ghost(procs.present_set()));
    let body = Body::NullOr { sentinel: ptr.bytes() as u64, other: Box::new(other) };
    assert(body@ == BodyView::NullOr {
        sentinel: ptr.spec_bytes() as u64,
        other: Box::new(other@),
    });
    body
}

/// The body for a union of two variants: the null pointer, and a pointer to
/// the payload of the other.
#[verifier::rlimit(40)]
fn clone_nullable_unwrapped(
    table: &LayoutInterner,
    procs: &mut CloneProcs,
    union: InLayout,
    union_layout: UnionLayout,
    nullable_id: bool,
    other_fields: InLayout,
) -> (body: Body)
    requires
        table.wf(),
        table.spec_is_closed(),
        old(procs).wf(table),
        table.contains(union),
        table.spec_get(union) == Layout::Union(union_layout),
        union_layout == (UnionLayout::NullableUnwrapped { nullable_id, other_fields }),
    ensures
        final(procs).wf(table),
        final(procs).extends(old(procs)),
        body@ == union_body(table@, table.spec_ptr_width(), union),
        linked_body(body@, final(procs).present_set()),
        only_for_body(
            table@,
            table.spec_ptr_width(),
            union_body(table@, table.spec_ptr_width(), union),
            old(procs).present_set(),
            final(procs).present_set(),
        ),
    decreases old(procs).absent(), table@.len(), 0nat,
{
    let ptr = table.ptr_width();
    let mut code = no_code();
    // write the "pointer" at the current offset
    write_pointer_with_tag_id(&mut code, false, 0, ptr);
    let payload = build_clone(table, procs, other_fields);
    proof {
        let before_set = old(procs).present_set();
        let body = union_body(table@, ptr, union);
        lemma_only_for_body_same(table@, ptr, body, before_set);
        lemma_unwrapped_case_is_part(table@, ptr, union, nullable_id, other_fields);
        lemma_only_for_body_part(
            table@,
            ptr,
            ops_view(payload@),
            body,
            before_set,
            before_set,
            procs.present_set(),
        );
    }
    let reserve = table.stack_size(other_fields) as u64;
    push_op(&mut code, Op::Enter { reserve, code: payload });
    assert(ops_view(code@) =~= pointer_stores(false, 0, ptr).push(
        OpView::Enter { reserve, code: clone_ops(table@, ptr, other_fields) },
    ));
    assert(linked_ops(ops_view(code@), procs.present_set()));
    let other = Body::Only { variant: other_fields, code };
    assert(other@ == BodyView::Only { variant: other_fields, code: ops_view(code@) });
    assert(linked_body(other@, procs.present_set()));
    let ghost other_view = other@;
    let body = Body::NullOr { sentinel: ptr.bytes() as u64, other: Box::new(other) };
    assert(body@ == BodyView::NullOr {
        sentinel: ptr.spec_bytes() as u64,
        other: Box::new(other_view),
    });
    assert(linked_body(body@, procs.present_set()));
    body
}

fn switch_of_cases(cases: Vec<Case>, Ghost(present): Ghost<Set<InLayout>>) -> (body: Body)
    requires
        forall|k: int| 0 <= k < cases@.len() ==> linked_ops((#[trigger] cases@[k])@.code, present),
    ensures
        body@ == switch_of(cases_view(cases@)),
        linked_body(body@, present),
{
    if cases.len() == 0 {
        // an empty tag union has no value: this code is never reached
        Body::Unreachable
    } else {
        let ghost views = cases_view(cases@);
        assert forall|i: int| 0 <= i < views.len() implies linked_ops(
            (#[trigger] views[i]).code,
            present,
        ) by {
            assert(views[i] == cases@[i]@);
        }
        Body::Switch { cases }
    }
}

/// The code for a layout that holds no pointer calls no procedure.
pub proof fn lemma_plain_calls_nothing(
    t: Seq<LayoutEntry<'_>>,
    ptr: PtrWidth,
    id: InLayout,
    present: Set<InLayout>,
)
    requires
        safe_to_memcpy(t, id),
    ensures
        linked_ops(clone_ops(t, ptr, id), present),
{
    let code = clone_ops(t, ptr, id);
    lemma_linked_all(code, present);
    match t[id as int].layout {
        Layout::LambdaSet(_) => {
            assert(code =~= Seq::<OpView>::empty());
        },
        _ => {
            let store = OpView::Store { delta: 0, width: size_at(t, id), word: Word::Data };
            assert(code =~= seq![store]) by {
                reveal_with_fuel(clone_ops, 2);
                reveal_with_fuel(safe_to_memcpy, 2);
            }
        },
    }
}

/// No procedure is generated that is not called for.
///
/// Let `all` hold the procedures that were there before and every
/// procedure that the code calls for, directly or through a procedure that
/// was not there before. Then it holds every procedure that is there after
/// the code was generated: no more procedures are generated than unions
/// can be reached from the code, however deep the values are.
pub proof fn lemma_generated_within(
    t: Seq<LayoutEntry<'_>>,
    ptr: PtrWidth,
    ops: Seq<OpView>,
    before: Set<InLayout>,
    after: Set<InLayout>,
    all: Set<InLayout>,
)
    requires
        only_for(t, ptr, ops, before, after),
        covers(t, ptr, ops, before, all),
    ensures
        after.subset_of(all),
{
    reveal(only_for);
}

/// Where the code calls nothing new, nothing is generated.
///
/// Let nothing be generated but what the code calls for, and let the code
/// find all that it calls among the procedures that were there before.
/// Then the procedures are as they were.
pub proof fn lemma_nothing_called_for(
    table: &LayoutInterner,
    before: &CloneProcs,
    after: &CloneProcs,
    ops: Seq<OpView>,
)
    requires
        after.extends(before),
        only_for(
            table@,
            table.spec_ptr_width(),
            ops,
            before.present_set(),
            after.present_set(),
        ),
        linked_ops(ops, before.present_set()),
    ensures
        after.slots() == before.slots(),
{
    reveal(only_for);
    let set = before.present_set();
    assert(covers(table@, table.spec_ptr_width(), ops, set, set));
    assert(after.present_set().subset_of(set));
    reveal(CloneProcs::present_set);
    assert(after.slots().len() <= usize::MAX) by {
        broadcast use vstd::std_specs::vec::axiom_spec_len;

        assert(vstd::std_specs::vec::spec_vec_len(&after.slots) == after.slots@.len());
    }
    assert forall|id: int| 0 <= id < after.slots().len() implies after.slots()[id]
        == before.slots()[id] by {
        if before.slots()[id] is Absent {
            if !(after.slots()[id] is Absent) {
                assert(after.present_set().contains(id as usize));
                assert(set.contains(id as usize));
            }
        }
    }
    assert(after.slots() =~= before.slots());
}

/// What lies in every covering set, has its parts lying there.
pub proof fn lemma_only_for_body_shrinks(
    t: Seq<LayoutEntry<'_>>,
    ptr: PtrWidth,
    body: BodyView,
    before: Set<InLayout>,
    after: Set<InLayout>,
    fewer: Set<InLayout>,
)
    requires
        only_for_body(t, ptr, body, before, after),
        fewer.subset_of(after),
    ensures
        only_for_body(t, ptr, body, before, fewer),
{
    reveal(only_for_body);
    assert forall|all: Set<InLayout>| #[trigger]
        covers_body(t, ptr, body, before, all) implies fewer.subset_of(all) by {
        assert(after.subset_of(all));
    }
}

/// A layout for which a procedure was called for is in the set of those.
pub proof fn lemma_present(procs: &CloneProcs, id: InLayout)
    ensures
        procs.present_set().contains(id) == procs.present(id),
{
    reveal(CloneProcs::present_set);
}

/// Filling a place with what is not empty keeps the invariant, where what
/// goes in is a body that the invariant admits.
proof fn lemma_put(
    table: &LayoutInterner,
    before: &CloneProcs,
    after: &CloneProcs,
    at: InLayout,
    slot: Slot,
)
    requires
        before.wf(table),
        at < before.slots().len(),
        after.slots() == before.slots().update(at as int, slot),
        !(slot is Absent),
        slot matches Slot::Done(body) ==> body@ == union_body(
            table@,
            table.spec_ptr_width(),
            at,
        ) && needs_procedure(table@, at) && linked_body(body@, before.present_set()),
    ensures
        after.wf(table),
        after.present(at),
        before.present_set().subset_of(after.present_set()),
        forall|id: InLayout|
            after.present_set().contains(id) ==> id == at || before.present_set().contains(id),
        before.slots()[at as int] is Absent ==> after.absent() == before.absent() - 1,
        !(before.slots()[at as int] is Absent) ==> after.absent() == before.absent(),
{
    reveal(CloneProcs::present_set);
    lemma_absent_update(before.slots(), at as int, slot);
    assert(before.present_set().subset_of(after.present_set()));
    assert forall|id: int| 0 <= id < after.slots().len() implies ((
    #[trigger] after.slots()[id]) matches Slot::Done(body) ==> body@ == union_body(
        table@,
        table.spec_ptr_width(),
        id as usize,
    ) && needs_procedure(table@, id as usize) && linked_body(body@, after.present_set())) by {
        if id != at {
            if let Slot::Done(body) = before.slots()[id] {
                lemma_linked_body_grows(body@, before.present_set(), after.present_set());
            }
        } else {
            if let Slot::Done(body) = slot {
                lemma_linked_body_grows(body@, before.present_set(), after.present_set());
            }
        }
    }
}

impl View for CloneProcs {
    type V = Map<InLayout, BodyView>;

    /// The procedures that were generated, by the layout of their union.
    open spec fn view(&self) -> Map<InLayout, BodyView> {
        Map::new(
            |id: InLayout| self.spec_body(id) is Some,
            |id: InLayout| self.spec_body(id)->Some_0,
        )
    }
}

/// Where no body was being generated before, none is afterwards.
pub proof fn lemma_extends_settled(before: &CloneProcs, after: &CloneProcs)
    requires
        after.extends(before),
        before.settled(),
    ensures
        after.settled(),
{
    assert forall|id: int| 0 <= id < after.slots().len() implies !(
    #[trigger] after.slots()[id] is Building) by {
        if !(before.slots()[id] is Absent) {
            assert(after.slots()[id] == before.slots()[id]);
        }
    }
}

/// Every procedure that is called has been generated.
///
/// When no body is being generated any more, the generated procedures are
/// those of the unions of the table that were called for, each with the
/// body that belongs to its union, and each calls generated procedures
/// only.
pub proof fn lemma_generated_is_closed(table: &LayoutInterner, procs: &CloneProcs)
    requires
        procs.wf(table),
        procs.settled(),
    ensures
        procs@.dom() == procs.present_set(),
        forall|id: InLayout| #[trigger]
            procs@.contains_key(id) ==> procs@[id] == union_body(
                table@,
                table.spec_ptr_width(),
                id,
            ) && needs_procedure(table@, id) && linked_body(procs@[id], procs@.dom()),
{
    reveal(CloneProcs::present_set);
    assert(procs@.dom() =~= procs.present_set()) by {
        assert forall|id: InLayout| procs@.dom().contains(id) == procs.present_set().contains(
            id,
        ) by {
            if id < procs.slots().len() {
                assert(!(procs.slots()[id as int] is Building));
            }
        }
    }
    assert forall|id: InLayout| #[trigger] procs@.contains_key(id) implies procs@[id] == union_body(
        table@,
        table.spec_ptr_width(),
        id,
    ) && needs_procedure(table@, id) && linked_body(procs@[id], procs@.dom()) by {
        assert(procs.slots()[id as int] is Done);
    }
}

/// Generation ends, and no procedure is generated twice.
///
/// Whatever is generated, the layouts without a procedure get no more, and
/// they are no more than the layouts of the table: so no more procedures
/// are ever generated than the table has layouts, however deep the values
/// are that the layouts describe. A body that was generated stays as it
/// is.
pub proof fn lemma_generation_bounded(
    table: &LayoutInterner,
    before: &CloneProcs,
    after: &CloneProcs,
)
    requires
        before.wf(table),
        after.extends(before),
    ensures
        after.absent() <= before.absent() <= table@.len(),
        forall|id: InLayout|
            before.spec_body(id) is Some ==> #[trigger] after.spec_body(id) == before.spec_body(id),
{
    lemma_absent_bound(before.slots());
    assert forall|id: InLayout| before.spec_body(id) is Some implies #[trigger] after.spec_body(id)
        == before.spec_body(id) by {
        assert(after.slots()[id as int] == before.slots()[id as int]);
    }
}

/// What was called for before, is still called for.
pub proof fn lemma_extends_present(before: &CloneProcs, after: &CloneProcs)
    requires
        after.extends(before),
    ensures
        before.present_set().subset_of(after.present_set()),
{
    reveal(CloneProcs::present_set);
    assert forall|id: InLayout| before.present_set().contains(id) implies after.present_set().contains(
        id,
    ) by {
        assert(after.slots()[id as int] == before.slots()[id as int]);
    }
}

/// What extends what extends a state, extends that state.
pub proof fn lemma_extends_trans(first: &CloneProcs, second: &CloneProcs, third: &CloneProcs)
    requires
        second.extends(first),
        third.extends(second),
    ensures
        third.extends(first),
{
}

} // verus!
