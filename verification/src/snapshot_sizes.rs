//! The declared sizes that the copying code relies on, and the proof that
//! with them the generated code keeps to the bytes of each value.
use crate::layout::{
    admissible, all_below, all_safe_to_memcpy, closed, reserved_ok, safe_to_memcpy, Builtin,
    InLayout, Layout, LayoutEntry, LayoutInterner, PtrWidth, UnionLayout, };
use crate::snapshot_bounds::{
    all_in_bounds, fits_body, fits_op, fits_ops, lemma_fits_ops_more, lemma_ops_in_bounds,
    Slots,
};
use crate::snapshot_code::{BodyView, CaseView, OpView, Word};
use crate::snapshot_gen::{
    clone_ops, collection_header, fields_ops, inline_case, lemma_generated_is_closed, linked_ops,
    needs_procedure, pointer_case, pointer_stores, size_at, struct_ops, switch_of, tag_id_around,
    union_body, CloneProcs,
};
use crate::snapshot_laws::{
    has_payload, is_nullable_union, lemma_generated_suffice, lemma_non_null_reference,
    self_contained, total_size,
};
use crate::snapshot_run::{run_body, run_ops, Cursors, Procs, Stored, Value};
use vstd::prelude::*;

verus! {

/// Bytes that the reference to a union's payload takes in the pointer's
/// place: two numbers of 32 bits where the discriminant is in the pointer,
/// else a pointer.
pub open spec fn reference_bytes(union: UnionLayout<'_>, ptr: PtrWidth) -> int {
    if union.spec_stores_tag_id_in_pointer(ptr) {
        8
    } else {
        ptr.spec_bytes() as int
    }
}

/// The declared sizes of the layout `id` are large enough for what the
/// copying code writes: a struct has room for its fields, a collection for
/// its three words, a pointer for a reference, a union for each variant
/// with its discriminant, and the block of a pointer union for each
/// payload.
pub open spec fn entry_fits(t: Seq<LayoutEntry<'_>>, ptr: PtrWidth, id: int) -> bool {
    let size = t[id].stack_size as int;
    let data_size = t[id].data_size as int;
    let p = ptr.spec_bytes() as int;
    match t[id].layout {
        Layout::Builtin(Builtin::List(_)) => 3 * p <= size,
        Layout::Builtin(Builtin::SetOf(_)) => 3 * p <= size,
        Layout::Builtin(Builtin::Dict(_, _)) => 3 * p <= size,
        Layout::Builtin(_) => true,
        Layout::Struct(fields) => total_size(t, fields@, 0) <= size,
        Layout::LambdaSet(_) => true,
        Layout::Boxed(_) => p <= size,
        Layout::RecursivePointer(target) => target < t.len() ==> t[target as int].stack_size
            <= size,
        Layout::Union(union) => match union {
            UnionLayout::NonRecursive(tags) => forall|k: int|
                0 <= k < tags@.len() ==> size_at(t, #[trigger] tags@[k])
                    + union.spec_tag_id_width() <= size,
            UnionLayout::Recursive(tags) => {
                &&& reference_bytes(union, ptr) <= size
                &&& forall|k: int|
                    0 <= k < tags@.len() ==> size_at(t, #[trigger] tags@[k]) + (
                    if union.spec_stores_tag_id_in_pointer(ptr) {
                        0
                    } else {
                        union.spec_tag_id_width() as int
                    }) <= data_size
            },
            UnionLayout::NonNullableUnwrapped(fields) => p <= size && size_at(t, fields)
                <= data_size,
            UnionLayout::NullableWrapped { other_tags, .. } => {
                &&& p <= size
                &&& reference_bytes(union, ptr) <= size
                &&& forall|k: int|
                    0 <= k < other_tags@.len() ==> size_at(t, #[trigger] other_tags@[k])
                        <= data_size
            },
            UnionLayout::NullableUnwrapped { .. } => p <= size,
        },
    }
}

/// The table is well formed and closed, and the declared sizes of all its
/// layouts are large enough.
#[verifier::opaque]
pub open spec fn sizes_fit(t: Seq<LayoutEntry<'_>>, ptr: PtrWidth) -> bool {
    &&& reserved_ok(t, ptr)
    &&& closed(t)
    &&& forall|i: int| 0 <= i < t.len() ==> admissible(t, i, (#[trigger] t[i]).layout)
    &&& forall|i: int| 0 <= i < t.len() ==> entry_fits(t, ptr, i)
}

/// What `sizes_fit` says of one layout.
pub proof fn lemma_sizes_fit_at(t: Seq<LayoutEntry<'_>>, ptr: PtrWidth, id: InLayout)
    requires
        sizes_fit(t, ptr),
        id < t.len(),
    ensures
        reserved_ok(t, ptr),
        closed(t),
        admissible(t, id as int, t[id as int].layout),
        entry_fits(t, ptr, id as int),
{
    reveal(sizes_fit);
}

/// The bytes in which the procedure of each union writes at `offset`: the
/// declared size of the union.
pub open spec fn slots_of(t: Seq<LayoutEntry<'_>>) -> Slots {
    Map::new(|union: InLayout| union < t.len(), |union: InLayout| size_at(t, union) as int)
}

/// The procedures of the unions of the table that hold pointers.
pub open spec fn procs_of(t: Seq<LayoutEntry<'_>>, ptr: PtrWidth) -> Procs {
    Map::new(
        |union: InLayout| needs_procedure(t, union),
        |union: InLayout| union_body(t, ptr, union),
    )
}

/// Code without a step over the fixed part fits a budget if each of its
/// operations does.
pub proof fn lemma_fits_each(ops: Seq<OpView>, slots: Slots, budget: int)
    requires
        0 <= budget,
        forall|i: int|
            0 <= i < ops.len() ==> !((#[trigger] ops[i]) is Advance) && fits_op(ops[i], slots, budget),
    ensures
        fits_ops(ops, slots, budget),
    decreases ops.len(),
{
    if ops.len() > 0 {
        let rest = ops.subrange(1, ops.len() as int);
        assert forall|i: int| 0 <= i < rest.len() implies !((#[trigger] rest[i]) is Advance)
            && fits_op(rest[i], slots, budget) by {
            assert(rest[i] == ops[i + 1]);
        }
        lemma_fits_each(rest, slots, budget);
        assert(!(ops[0] is Advance) && fits_op(ops[0], slots, budget));
    }
}

/// Sizes add up to no less than nothing.
pub proof fn lemma_total_size_bounds(t: Seq<LayoutEntry<'_>>, fields: Seq<InLayout>, from: int)
    ensures
        0 <= total_size(t, fields, from),
    decreases fields.len() - from,
{
    if 0 <= from < fields.len() {
        lemma_total_size_bounds(t, fields, from + 1);
    }
}

/// Code of one operation fits a budget if the operation does.
pub proof fn lemma_fits_one(op: OpView, slots: Slots, budget: int)
    requires
        0 <= budget,
        !(op is Advance),
        fits_op(op, slots, budget),
    ensures
        fits_ops(seq![op], slots, budget),
{
    let code = seq![op];
    assert(code[0] == op);
    assert(code.subrange(1, 1) =~= Seq::<OpView>::empty());
    reveal_with_fuel(fits_ops, 2);
}

/// The code for a collection fits a budget that has room for the three
/// words of the collection, if what it does with the items fits.
pub proof fn lemma_collection_fits(ptr: PtrWidth, items: OpView, slots: Slots, budget: int)
    requires
        3 * ptr.spec_bytes() <= budget,
        !(items is Advance),
        fits_op(items, slots, budget),
    ensures
        fits_ops(collection_header(ptr).push(items), slots, budget),
{
    let code = collection_header(ptr).push(items);
    assert forall|i: int| 0 <= i < code.len() implies !((#[trigger] code[i]) is Advance) && fits_op(
        code[i],
        slots,
        budget,
    ) by {
        if i == 0 {
        } else if i == 1 {
        } else if i == 2 {
        } else {
            assert(code[i] == items);
        }
    }
    lemma_fits_each(code, slots, budget);
}

/// The code for a field and the step over it, in front of code for what
/// follows, fits a budget with room for the field and for what follows.
pub proof fn lemma_field_step_fits(
    index: usize,
    field_code: Seq<OpView>,
    width: u64,
    rest: Seq<OpView>,
    slots: Slots,
    budget: int,
)
    requires
        fits_ops(field_code, slots, budget),
        width <= budget,
        fits_ops(rest, slots, budget - width),
    ensures
        fits_ops(
            seq![OpView::Field { index, code: field_code }, OpView::Advance { bytes: width }] + rest,
            slots,
            budget,
        ),
{
    let first = OpView::Field { index, code: field_code };
    let step = OpView::Advance { bytes: width };
    let code = seq![first, step] + rest;
    let tail = seq![step] + rest;
    assert(code[0] == first);
    assert(code.subrange(1, code.len() as int) =~= tail);
    assert(tail[0] == step);
    assert(tail.subrange(1, tail.len() as int) =~= rest);
    assert(fits_ops(tail, slots, budget));
    assert(fits_op(first, slots, budget));
}

/// The code for a layout writes its fixed part into the declared size of
/// the layout.
#[verifier::rlimit(40)]
pub proof fn lemma_clone_fits(t: Seq<LayoutEntry<'_>>, ptr: PtrWidth, id: InLayout)
    requires
        sizes_fit(t, ptr),
        id < t.len(),
    ensures
        fits_ops(clone_ops(t, ptr, id), slots_of(t), size_at(t, id) as int),
    decreases id, 1nat, 0nat,
{
    let slots = slots_of(t);
    let size = size_at(t, id) as int;
    let code = clone_ops(t, ptr, id);
    lemma_sizes_fit_at(t, ptr, id);
    match t[id as int].layout {
        Layout::Builtin(Builtin::Str) => {
            lemma_fits_one(OpView::StrCloneTo { header: size_at(t, id) }, slots, size);
        },
        Layout::Builtin(Builtin::List(elem)) => {
            lemma_elements_fit(t, ptr, id, elem);
        },
        Layout::Builtin(Builtin::SetOf(elem)) => {
            lemma_elements_fit(t, ptr, id, elem);
        },
        Layout::Builtin(Builtin::Dict(key, value)) => {
            let entry = seq![key, value];
            let width = size_at(t, key) + size_at(t, value);
            let items = if safe_to_memcpy(t, key) && safe_to_memcpy(t, value) {
                OpView::CopyElements { width: width as u64 }
            } else {
                OpView::EachElement { width: width as u64, code: fields_ops(t, ptr, entry, 0, id) }
            };
            assert(total_size(t, entry, 0) == width) by {
                reveal_with_fuel(total_size, 3);
            }
            lemma_fields_fit(t, ptr, entry, 0, width, id);
            lemma_collection_fits(ptr, items, slots, size);
            assert(code == collection_header(ptr).push(items));
        },
        Layout::Builtin(_) => {
            lemma_fits_one(
                OpView::Store { delta: 0, width: size_at(t, id), word: Word::Data },
                slots,
                size,
            );
        },
        Layout::Struct(fields) => {
            if !all_safe_to_memcpy(t, fields@, id) {
                lemma_fields_fit(t, ptr, fields@, 0, size, id);
            } else {
                lemma_fits_one(
                    OpView::Store { delta: 0, width: size_at(t, id), word: Word::Data },
                    slots,
                    size,
                );
            }
            assert(code == struct_ops(t, ptr, fields@, size_at(t, id), id));
        },
        Layout::LambdaSet(_) => {},
        Layout::Union(_) => {
            if safe_to_memcpy(t, id) {
                lemma_fits_one(
                    OpView::Store { delta: 0, width: size_at(t, id), word: Word::Data },
                    slots,
                    size,
                );
            } else {
                lemma_fits_one(OpView::Call { union: id }, slots, size);
            }
        },
        Layout::Boxed(inner) => {
            lemma_clone_fits(t, ptr, inner);
            let enter = OpView::Enter {
                reserve: size_at(t, inner),
                code: clone_ops(t, ptr, inner),
            };
            lemma_fits_one(enter, slots, size);
            let first = OpView::Store {
                delta: 0,
                width: ptr.spec_bytes() as u64,
                word: Word::ExtraOffset,
            };
            let second = OpView::Deref { code: seq![enter] };
            assert(code == seq![first, second]);
            assert forall|i: int| 0 <= i < code.len() implies !((#[trigger] code[i]) is Advance)
                && fits_op(code[i], slots, size) by {
                if i == 0 {
                } else {
                    assert(code[i] == second);
                }
            }
            lemma_fits_each(code, slots, size);
        },
        Layout::RecursivePointer(target) => {
            assert(target < t.len());
            lemma_fits_one(OpView::Call { union: target }, slots, size);
        },
    }
}

/// The code for a collection of items of one layout fits the declared size
/// of the collection.
#[verifier::rlimit(40)]
pub proof fn lemma_elements_fit(
    t: Seq<LayoutEntry<'_>>,
    ptr: PtrWidth,
    id: InLayout,
    elem: InLayout,
)
    requires
        sizes_fit(t, ptr),
        id < t.len(),
        elem < id,
        3 * ptr.spec_bytes() <= size_at(t, id),
    ensures
        fits_ops(
            collection_header(ptr).push(
                if safe_to_memcpy(t, elem) {
                    OpView::CopyElements { width: size_at(t, elem) }
                } else {
                    OpView::EachElement { width: size_at(t, elem), code: clone_ops(t, ptr, elem) }
                },
            ),
            slots_of(t),
            size_at(t, id) as int,
        ),
    decreases id, 0nat, 1nat,
{
    let items = if safe_to_memcpy(t, elem) {
        OpView::CopyElements { width: size_at(t, elem) }
    } else {
        OpView::EachElement { width: size_at(t, elem), code: clone_ops(t, ptr, elem) }
    };
    if !safe_to_memcpy(t, elem) {
        lemma_clone_fits(t, ptr, elem);
    }
    lemma_collection_fits(ptr, items, slots_of(t), size_at(t, id) as int);
}

/// The code for the fields of a struct from number `from` on writes its
/// fixed part into the declared sizes of those fields, added up.
#[verifier::rlimit(40)]
pub proof fn lemma_fields_fit(
    t: Seq<LayoutEntry<'_>>,
    ptr: PtrWidth,
    fields: Seq<InLayout>,
    from: int,
    budget: int,
    bound: InLayout,
)
    requires
        sizes_fit(t, ptr),
        bound <= t.len(),
        all_below(fields, bound as int),
        0 <= from <= fields.len(),
        total_size(t, fields, from) <= budget,
    ensures
        fits_ops(fields_ops(t, ptr, fields, from, bound), slots_of(t), budget),
    decreases bound, 0nat, fields.len() - from,
{
    let slots = slots_of(t);
    lemma_total_size_bounds(t, fields, from);
    if from < fields.len() {
        let field = fields[from];
        let width = size_at(t, field);
        lemma_total_size_bounds(t, fields, from + 1);
        assert(field < bound);
        lemma_clone_fits(t, ptr, field);
        lemma_fits_ops_more(clone_ops(t, ptr, field), slots, width as int, budget);
        lemma_fields_fit(t, ptr, fields, from + 1, budget - width, bound);
        lemma_field_step_fits(
            from as usize,
            clone_ops(t, ptr, field),
            width,
            fields_ops(t, ptr, fields, from + 1, bound),
            slots,
            budget,
        );
        assert(fields_ops(t, ptr, fields, from, bound) == seq![
            OpView::Field { index: from as usize, code: clone_ops(t, ptr, field) },
            OpView::Advance { bytes: width },
        ] + fields_ops(t, ptr, fields, from + 1, bound));
    }
}

/// The code for a payload with the discriminant behind it writes its
/// fixed part into the sizes of both.
#[verifier::rlimit(40)]
pub proof fn lemma_pair_fits(
    t: Seq<LayoutEntry<'_>>,
    ptr: PtrWidth,
    variant: InLayout,
    tags: int,
    budget: int,
    bound: InLayout,
)
    requires
        sizes_fit(t, ptr),
        bound <= t.len(),
        variant < bound,
        UnionLayout::tag_id_layout_for(tags) < bound,
        size_at(t, variant) + UnionLayout::tag_id_width_for(tags) <= budget,
    ensures
        fits_ops(
            struct_ops(
                t,
                ptr,
                seq![variant, UnionLayout::tag_id_layout_for(tags)],
                (size_at(t, variant) + UnionLayout::tag_id_width_for(tags)) as u64,
                bound,
            ),
            slots_of(t),
            budget,
        ),
{
    let tag_layout = UnionLayout::tag_id_layout_for(tags);
    let pair = seq![variant, tag_layout];
    let width = size_at(t, variant) + UnionLayout::tag_id_width_for(tags);
    let code = struct_ops(t, ptr, pair, width as u64, bound);
    if all_safe_to_memcpy(t, pair, bound) {
        lemma_fits_each(code, slots_of(t), budget);
    } else {
        lemma_sizes_fit_at(t, ptr, variant);
        assert(total_size(t, pair, 0) == width) by {
            reveal_with_fuel(total_size, 3);
        }
        lemma_fields_fit(t, ptr, pair, 0, budget, bound);
    }
}

/// The code of a case that writes a reference and copies the payload into
/// `reserve` bytes at `extra` writes its fixed part into the bytes of the
/// reference.
pub proof fn lemma_reference_fits(
    slots: Slots,
    in_pointer: bool,
    tag_id: u16,
    ptr: PtrWidth,
    reserve: u64,
    payload: Seq<OpView>,
    budget: int,
)
    requires
        fits_ops(payload, slots, reserve as int),
        (if in_pointer {
            8
        } else {
            ptr.spec_bytes() as int
        }) <= budget,
    ensures
        fits_ops(
            pointer_stores(in_pointer, tag_id, ptr).push(OpView::Enter { reserve, code: payload }),
            slots,
            budget,
        ),
{
    let code = pointer_stores(in_pointer, tag_id, ptr).push(OpView::Enter { reserve, code: payload });
    lemma_fits_each(code, slots, budget);
}

/// A switch fits a budget if each of its cases does.
pub proof fn lemma_switch_fits(cases: Seq<CaseView>, slots: Slots, budget: int)
    requires
        forall|i: int| 0 <= i < cases.len() ==> fits_ops((#[trigger] cases[i]).code, slots, budget),
    ensures
        fits_body(switch_of(cases), slots, budget),
{
}

/// The body for a union whose value is the payload itself.
#[verifier::rlimit(40)]
proof fn lemma_non_recursive_fits(t: Seq<LayoutEntry<'_>>, ptr: PtrWidth, id: InLayout, tags: &[InLayout])
    requires
        sizes_fit(t, ptr),
        id < t.len(),
        t[id as int].layout == Layout::Union(UnionLayout::NonRecursive(tags)),
    ensures
        fits_body(union_body(t, ptr, id), slots_of(t), size_at(t, id) as int),
{
    let slots = slots_of(t);
    let size = size_at(t, id) as int;
    let data_size = t[id as int].data_size as u64;
    let union = UnionLayout::NonRecursive(tags);
    let in_pointer = union.spec_stores_tag_id_in_pointer(ptr);
    lemma_sizes_fit_at(t, ptr, id);
    let count = tags@.len() as int;
    let cases = Seq::new(
        tags@.len(),
        |i: int| inline_case(t, ptr, id, count, i as u16, tags@[i]),
    );
    assert forall|i: int| 0 <= i < cases.len() implies fits_ops(
        (#[trigger] cases[i]).code,
        slots,
        size,
    ) by {
        assert(tags@[i] < id);
        lemma_pair_fits(t, ptr, tags@[i], count, size, id);
    }
    lemma_switch_fits(cases, slots, size);
}

/// The body for a union whose value is a pointer to the payload.
#[verifier::rlimit(40)]
proof fn lemma_recursive_fits(t: Seq<LayoutEntry<'_>>, ptr: PtrWidth, id: InLayout, tags: &[InLayout])
    requires
        sizes_fit(t, ptr),
        id < t.len(),
        t[id as int].layout == Layout::Union(UnionLayout::Recursive(tags)),
    ensures
        fits_body(union_body(t, ptr, id), slots_of(t), size_at(t, id) as int),
{
    let slots = slots_of(t);
    let size = size_at(t, id) as int;
    let data_size = t[id as int].data_size as u64;
    let union = UnionLayout::Recursive(tags);
    let in_pointer = union.spec_stores_tag_id_in_pointer(ptr);
    lemma_sizes_fit_at(t, ptr, id);
    let count = tags@.len() as int;
    let cases = Seq::new(
        tags@.len(),
        |i: int|
            pointer_case(t, ptr, id, count, in_pointer, !in_pointer, data_size, i as u16, tags@[i]),
    );
    assert forall|i: int| 0 <= i < cases.len() implies fits_ops(
        (#[trigger] cases[i]).code,
        slots,
        size,
    ) by {
        assert(tags@[i] < id);
        if in_pointer {
            lemma_clone_fits(t, ptr, tags@[i]);
            lemma_fits_ops_more(
                clone_ops(t, ptr, tags@[i]),
                slots,
                size_at(t, tags@[i]) as int,
                data_size as int,
            );
            lemma_reference_fits(
                slots,
                in_pointer,
                i as u16,
                ptr,
                data_size,
                clone_ops(t, ptr, tags@[i]),
                size,
            );
        } else {
            lemma_pair_fits(t, ptr, tags@[i], count, data_size as int, id);
            lemma_reference_fits(
                slots,
                in_pointer,
                i as u16,
                ptr,
                data_size,
                struct_ops(
                    t,
                    ptr,
                    seq![tags@[i], UnionLayout::tag_id_layout_for(count)],
                    (size_at(t, tags@[i]) + UnionLayout::tag_id_width_for(count)) as u64,
                    id,
                ),
                size,
            );
        }
    }
    lemma_switch_fits(cases, slots, size);
}

/// The body for a union with one variant, whose value is a pointer.
#[verifier::rlimit(40)]
proof fn lemma_non_nullable_unwrapped_fits(t: Seq<LayoutEntry<'_>>, ptr: PtrWidth, id: InLayout, fields: InLayout)
    requires
        sizes_fit(t, ptr),
        id < t.len(),
        t[id as int].layout == Layout::Union(UnionLayout::NonNullableUnwrapped(fields)),
    ensures
        fits_body(union_body(t, ptr, id), slots_of(t), size_at(t, id) as int),
{
    let slots = slots_of(t);
    let size = size_at(t, id) as int;
    let data_size = t[id as int].data_size as u64;
    let union = UnionLayout::NonNullableUnwrapped(fields);
    let in_pointer = union.spec_stores_tag_id_in_pointer(ptr);
    lemma_sizes_fit_at(t, ptr, id);
    lemma_clone_fits(t, ptr, fields);
    lemma_fits_ops_more(
        clone_ops(t, ptr, fields),
        slots,
        size_at(t, fields) as int,
        data_size as int,
    );
    lemma_reference_fits(slots, false, 0, ptr, data_size, clone_ops(t, ptr, fields), size);
}

/// The body for a union with a null pointer and several other variants.
#[verifier::rlimit(40)]
proof fn lemma_nullable_wrapped_fits(t: Seq<LayoutEntry<'_>>, ptr: PtrWidth, id: InLayout, nullable_id: u16, other_tags: &[InLayout])
    requires
        sizes_fit(t, ptr),
        id < t.len(),
        t[id as int].layout == Layout::Union(UnionLayout::NullableWrapped { nullable_id, other_tags }),
    ensures
        fits_body(union_body(t, ptr, id), slots_of(t), size_at(t, id) as int),
{
    let slots = slots_of(t);
    let size = size_at(t, id) as int;
    let data_size = t[id as int].data_size as u64;
    let union = UnionLayout::NullableWrapped { nullable_id, other_tags };
    let in_pointer = union.spec_stores_tag_id_in_pointer(ptr);
    lemma_sizes_fit_at(t, ptr, id);
    let cases = Seq::new(
        other_tags@.len(),
        |i: int|
            pointer_case(
                t,
                ptr,
                id,
                (other_tags@.len() + 1) as int,
                in_pointer,
                false,
                data_size,
                tag_id_around(nullable_id, i),
                other_tags@[i],
            ),
    );
    assert forall|i: int| 0 <= i < cases.len() implies fits_ops(
        (#[trigger] cases[i]).code,
        slots,
        size,
    ) by {
        assert(other_tags@[i] < id);
        lemma_clone_fits(t, ptr, other_tags@[i]);
        lemma_fits_ops_more(
            clone_ops(t, ptr, other_tags@[i]),
            slots,
            size_at(t, other_tags@[i]) as int,
            data_size as int,
        );
        lemma_reference_fits(
            slots,
            in_pointer,
            tag_id_around(nullable_id, i),
            ptr,
            data_size,
            clone_ops(t, ptr, other_tags@[i]),
            size,
        );
    }
    lemma_switch_fits(cases, slots, size);
    assert(union_body(t, ptr, id) == BodyView::NullOr {
        sentinel: ptr.spec_bytes() as u64,
        other: Box::new(switch_of(cases)),
    });
}

/// The body for a union of the null pointer and one other variant.
#[verifier::rlimit(40)]
proof fn lemma_nullable_unwrapped_fits(t: Seq<LayoutEntry<'_>>, ptr: PtrWidth, id: InLayout, nullable_id: bool, other_fields: InLayout)
    requires
        sizes_fit(t, ptr),
        id < t.len(),
        t[id as int].layout == Layout::Union(UnionLayout::NullableUnwrapped { nullable_id, other_fields }),
    ensures
        fits_body(union_body(t, ptr, id), slots_of(t), size_at(t, id) as int),
{
    let slots = slots_of(t);
    let size = size_at(t, id) as int;
    let data_size = t[id as int].data_size as u64;
    let union = UnionLayout::NullableUnwrapped { nullable_id, other_fields };
    let in_pointer = union.spec_stores_tag_id_in_pointer(ptr);
    lemma_sizes_fit_at(t, ptr, id);
    lemma_clone_fits(t, ptr, other_fields);
    lemma_reference_fits(
        slots,
        false,
        0,
        ptr,
        size_at(t, other_fields),
        clone_ops(t, ptr, other_fields),
        size,
    );
    let code = pointer_stores(false, 0, ptr).push(
        OpView::Enter { reserve: size_at(t, other_fields), code: clone_ops(t, ptr, other_fields) },
    );
    let other = BodyView::Only { variant: other_fields, code };
    assert(fits_body(other, slots, size));
    assert(union_body(t, ptr, id) == BodyView::NullOr {
        sentinel: ptr.spec_bytes() as u64,
        other: Box::new(other),
    });
}

/// The body of the procedure of a union writes its fixed part into the
/// declared size of the union.
pub proof fn lemma_body_fits(t: Seq<LayoutEntry<'_>>, ptr: PtrWidth, id: InLayout)
    requires
        sizes_fit(t, ptr),
        id < t.len(),
        t[id as int].layout is Union,
    ensures
        fits_body(union_body(t, ptr, id), slots_of(t), size_at(t, id) as int),
{
    match t[id as int].layout {
        Layout::Union(UnionLayout::NonRecursive(tags)) => lemma_non_recursive_fits(t, ptr, id, tags),
        Layout::Union(UnionLayout::Recursive(tags)) => lemma_recursive_fits(t, ptr, id, tags),
        Layout::Union(UnionLayout::NonNullableUnwrapped(fields)) => {
            lemma_non_nullable_unwrapped_fits(t, ptr, id, fields)
        },
        Layout::Union(UnionLayout::NullableWrapped { nullable_id, other_tags }) => {
            lemma_nullable_wrapped_fits(t, ptr, id, nullable_id, other_tags)
        },
        Layout::Union(UnionLayout::NullableUnwrapped { nullable_id, other_fields }) => {
            lemma_nullable_unwrapped_fits(t, ptr, id, nullable_id, other_fields)
        },
        _ => {},
    }
}

/// Generated code keeps to the bytes of the value it copies.
///
/// Let the declared sizes of the table be large enough, and let a value of
/// a layout be copied with `extra` behind the bytes of the value itself:
/// `offset` and the declared size of the layout are no more than `extra`.
/// Then neither cursor moves back; `offset` stays within the bytes of the
/// value, so it never passes the point where `extra` began; and every
/// store lies either in the bytes of the value or between the point where
/// `extra` began and the point where it ends.
pub proof fn lemma_clone_in_bounds(
    t: Seq<LayoutEntry<'_>>,
    ptr: PtrWidth,
    id: InLayout,
    v: Value,
    c: Cursors,
)
    requires
        sizes_fit(t, ptr),
        id < t.len(),
        c.offset + size_at(t, id) <= c.extra,
    ensures
        ({
            let outcome = run_ops(clone_ops(t, ptr, id), procs_of(t, ptr), v, c);
            &&& c.offset <= outcome.cursors.offset <= c.offset + size_at(t, id)
            &&& outcome.cursors.offset <= c.extra <= outcome.cursors.extra
            &&& all_in_bounds(outcome.writes, c, size_at(t, id) as int, outcome.cursors.extra)
        }),
{
    let procs = procs_of(t, ptr);
    let slots = slots_of(t);
    assert forall|union: InLayout| #[trigger] procs.contains_key(union) implies slots.contains_key(
        union,
    ) && fits_body(procs[union], slots, slots[union]) by {
        lemma_body_fits(t, ptr, union);
    }
    lemma_clone_fits(t, ptr, id);
    lemma_ops_in_bounds(clone_ops(t, ptr, id), procs, slots, size_at(t, id) as int, v, c);
}

/// The struct of the fields of the variant number `id` of a nullable
/// union.
pub open spec fn payload_variant(t: Seq<LayoutEntry<'_>>, union: InLayout, id: nat) -> InLayout {
    match t[union as int].layout {
        Layout::Union(UnionLayout::NullableWrapped { nullable_id, other_tags }) => {
            if id < nullable_id {
                other_tags@[id as int]
            } else {
                other_tags@[id - 1]
            }
        },
        Layout::Union(UnionLayout::NullableUnwrapped { other_fields, .. }) => other_fields,
        _ => 0,
    }
}

/// Null is written as zero, and nothing else is.
///
/// Let a value of a nullable union that is not null be copied, with
/// `extra` not at the very start of the buffer, and where the union keeps
/// the discriminant in the pointer, within the reach of 32 bits. Then the
/// reference that is written in place of the pointer is not zero. And let
/// the declared sizes of the union be large enough: then `extra` moves
/// forward by the size of the variant's fields or more, and so it moves
/// if the fields have a size.
pub proof fn lemma_non_null_is_not_zero(
    t: Seq<LayoutEntry<'_>>,
    ptr: PtrWidth,
    union: InLayout,
    procs: Procs,
    c: Cursors,
    id: nat,
    data: Value,
)
    requires
        is_nullable_union(t, union),
        has_payload(t, union, id),
        entry_fits(t, ptr, union as int),
        0 < c.extra,
        t[union as int].layout->Union_0.spec_stores_tag_id_in_pointer(ptr) ==> c.extra
            < 0x1_0000_0000,
    ensures
        ({
            let outcome = run_body(
                union_body(t, ptr, union),
                procs,
                Value::Tag { id, data: Box::new(data) },
                c,
            );
            let at: int = if t[union as int].layout->Union_0.spec_stores_tag_id_in_pointer(ptr) {
                1
            } else {
                0
            };
            &&& outcome.writes.len() > at
            &&& outcome.writes[at].stored == Stored::Number(c.extra)
            &&& outcome.writes[at].stored != Stored::Number(0)
            &&& outcome.cursors.extra >= c.extra + size_at(t, payload_variant(t, union, id))
            &&& size_at(t, payload_variant(t, union, id)) > 0 ==> outcome.cursors.extra > c.extra
        }),
{
    lemma_non_null_reference(t, ptr, union, procs, c, id, data);
    match t[union as int].layout {
        Layout::Union(UnionLayout::NullableWrapped { nullable_id, other_tags }) => {
            let at: int = if id < nullable_id {
                id as int
            } else {
                id - 1
            };
            assert(size_at(t, other_tags@[at]) <= t[union as int].data_size);
        },
        _ => {},
    }
}

/// What was generated keeps to the bytes of the value it copies.
///
/// Let code for a layout and the procedures it calls be generated, and
/// none be left half done. Then the code runs with the generated
/// procedures as `lemma_clone_in_bounds` says: neither cursor moves back,
/// `offset` stays within the bytes of the value, and every store lies in
/// those bytes or in what was appended.
pub proof fn lemma_generated_in_bounds(
    table: &LayoutInterner,
    procs: &CloneProcs,
    id: InLayout,
    v: Value,
    c: Cursors,
)
    requires
        sizes_fit(table@, table.spec_ptr_width()),
        procs.wf(table),
        procs.settled(),
        id < table@.len(),
        linked_ops(clone_ops(table@, table.spec_ptr_width(), id), procs.present_set()),
        c.offset + size_at(table@, id) <= c.extra,
    ensures
        ({
            let code = clone_ops(table@, table.spec_ptr_width(), id);
            let outcome = run_ops(code, procs@, v, c);
            &&& outcome == run_ops(code, procs_of(table@, table.spec_ptr_width()), v, c)
            &&& c.offset <= outcome.cursors.offset <= c.offset + size_at(table@, id)
            &&& outcome.cursors.offset <= c.extra <= outcome.cursors.extra
            &&& all_in_bounds(outcome.writes, c, size_at(table@, id) as int, outcome.cursors.extra)
        }),
{
    let t = table@;
    let ptr = table.spec_ptr_width();
    lemma_generated_is_closed(table, procs);
    assert(self_contained(procs@, procs_of(t, ptr)));
    lemma_generated_suffice(clone_ops(t, ptr, id), procs@, procs_of(t, ptr), v, c);
    lemma_clone_in_bounds(t, ptr, id, v, c);
}

/// The sizes of the fields from a number on add up to no more than those
/// from an earlier number on.
pub proof fn lemma_total_size_grows(
    t: Seq<LayoutEntry<'_>>,
    fields: Seq<InLayout>,
    from: int,
    to: int,
)
    requires
        0 <= from <= to <= fields.len(),
    ensures
        total_size(t, fields, to) <= total_size(t, fields, from),
    decreases to - from,
{
    if from < to {
        lemma_total_size_grows(t, fields, from + 1, to);
        lemma_total_size_bounds(t, fields, from + 1);
    }
}

/// Whether the fields have room in `size` bytes.
fn fields_have_room(table: &LayoutInterner, fields: &[InLayout], size: u32) -> (ok: bool)
    requires
        all_below(fields@, table@.len() as int),
    ensures
        ok == (total_size(table@, fields@, 0) <= size),
{
    let mut at: usize = fields.len();
    let mut sum: u64 = 0;
    while at > 0
        invariant
            all_below(fields@, table@.len() as int),
            at <= fields@.len(),
            sum == total_size(table@, fields@, at as int),
            sum <= size,
        decreases at,
    {
        at -= 1;
        sum = sum + table.stack_size(fields[at]) as u64;
        if sum > size as u64 {
            proof {
                lemma_total_size_grows(table@, fields@, 0, at as int);
            }
            return false;
        }
    }
    true
}

/// Whether each of the variants has room in `size` bytes, together with
/// `behind` bytes behind it.
fn variants_have_room(table: &LayoutInterner, tags: &[InLayout], behind: u32, size: u32) -> (ok:
    bool)
    requires
        all_below(tags@, table@.len() as int),
    ensures
        ok == forall|k: int|
            0 <= k < tags@.len() ==> size_at(table@, #[trigger] tags@[k]) + behind <= size,
{
    let mut k: usize = 0;
    while k < tags.len()
        invariant
            all_below(tags@, table@.len() as int),
            k <= tags@.len(),
            forall|j: int| 0 <= j < k ==> size_at(table@, #[trigger] tags@[j]) + behind <= size,
        decreases tags@.len() - k,
    {
        if table.stack_size(tags[k]) as u64 + behind as u64 > size as u64 {
            return false;
        }
        k += 1;
    }
    true
}

/// Whether the declared sizes of one layout are large enough for what the
/// copying code writes.
pub fn entry_sizes_fit(table: &LayoutInterner, id: InLayout) -> (ok: bool)
    requires
        table.wf(),
        table.contains(id),
    ensures
        ok == entry_fits(table@, table.spec_ptr_width(), id as int),
{
    let ptr = table.ptr_width();
    let p = ptr.bytes();
    let size = table.stack_size(id);
    let data_size = table.data_size(id);
    assert(admissible(table@, id as int, table@[id as int].layout));
    match table.get(id) {
        Layout::Builtin(Builtin::List(_)) => 3 * p <= size,
        Layout::Builtin(Builtin::SetOf(_)) => 3 * p <= size,
        Layout::Builtin(Builtin::Dict(_, _)) => 3 * p <= size,
        Layout::Builtin(_) => true,
        Layout::Struct(fields) => fields_have_room(table, fields, size),
        Layout::LambdaSet(_) => true,
        Layout::Boxed(_) => p <= size,
        Layout::RecursivePointer(target) => target >= table.len() || table.stack_size(target)
            <= size,
        Layout::Union(union) => {
            let reference: u32 = if union.stores_tag_id_in_pointer(ptr) {
                8
            } else {
                p
            };
            match union {
                UnionLayout::NonRecursive(tags) => variants_have_room(
                    table,
                    tags,
                    union.tag_id_width(),
                    size,
                ),
                UnionLayout::Recursive(tags) => {
                    let behind = if union.stores_tag_id_in_pointer(ptr) {
                        0
                    } else {
                        union.tag_id_width()
                    };
                    reference <= size && variants_have_room(table, tags, behind, data_size)
                },
                UnionLayout::NonNullableUnwrapped(fields) => p <= size && table.stack_size(fields)
                    <= data_size,
                UnionLayout::NullableWrapped { other_tags, .. } => p <= size && reference <= size
                    && variants_have_room(table, other_tags, 0, data_size),
                UnionLayout::NullableUnwrapped { .. } => p <= size,
            }
        },
    }
}

/// Whether the table is closed and the declared sizes of all its layouts
/// are large enough for what the copying code writes.
pub fn check_sizes(table: &LayoutInterner) -> (ok: bool)
    requires
        table.wf(),
    ensures
        ok == sizes_fit(table@, table.spec_ptr_width()),
{
    proof {
        reveal(sizes_fit);
    }
    if !table.is_closed() {
        return false;
    }
    let mut id: usize = 0;
    while id < table.len()
        invariant
            table.wf(),
            id <= table@.len(),
            forall|i: int| 0 <= i < id ==> entry_fits(table@, table.spec_ptr_width(), i),
        decreases table@.len() - id,
    {
        if !entry_sizes_fit(table, id) {
            proof {
                reveal(sizes_fit);
            }
            return false;
        }
        id += 1;
    }
    proof {
        reveal(sizes_fit);
    }
    true
}

} // verus!
