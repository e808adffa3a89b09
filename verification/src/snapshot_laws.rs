//! What holds of the copying code that this library generates, whatever
//! the layouts and the values.
use crate::layout::{
    admissible, safe_to_memcpy, InLayout, Layout, LayoutEntry, PtrWidth, UnionLayout,
};
use crate::snapshot_code::{BodyView, CaseView, OpView, Word};
use crate::snapshot_gen::{
    clone_ops, fields_ops, lemma_linked_all, linked_body, linked_op, linked_ops, pointer_case,
    pointer_stores, size_at, switch_of, tag_id_around, union_body,
};
use crate::snapshot_run::{
    find_case, length_of, lemma_cursors_monotone, run_body, run_items, run_op, run_ops, Cursors,
    Outcome, Procs, Stored, Value, Write,
};
use vstd::prelude::*;

verus! {

/// Code that is made of two pieces runs as the first piece and then the
/// second.
pub proof fn lemma_run_concat(
    first: Seq<OpView>,
    second: Seq<OpView>,
    procs: Procs,
    v: Value,
    c: Cursors,
)
    ensures
        ({
            let one = run_ops(first, procs, v, c);
            let two = run_ops(second, procs, v, one.cursors);
            run_ops(first + second, procs, v, c) == Outcome {
                cursors: two.cursors,
                writes: one.writes + two.writes,
            }
        }),
    decreases first.len(),
{
    let whole = first + second;
    if first.len() == 0 {
        assert(whole =~= second);
        let two = run_ops(second, procs, v, c);
        assert(Seq::<Write>::empty() + two.writes =~= two.writes);
    } else {
        let head = run_op(first[0], procs, v, c);
        let tail = first.subrange(1, first.len() as int);
        assert(whole[0] == first[0]);
        assert(whole.subrange(1, whole.len() as int) =~= tail + second);
        lemma_run_concat(tail, second, procs, v, head.cursors);
        let one_tail = run_ops(tail, procs, v, head.cursors);
        let two = run_ops(second, procs, v, one_tail.cursors);
        assert(head.writes + (one_tail.writes + two.writes) =~= (head.writes + one_tail.writes)
            + two.writes);
    }
}

/// The declared sizes of the fields from number `from` on, added up.
pub open spec fn total_size(t: Seq<LayoutEntry<'_>>, fields: Seq<InLayout>, from: int) -> int
    decreases fields.len() - from,
{
    if from < 0 || from >= fields.len() {
        0
    } else {
        size_at(t, fields[from]) + total_size(t, fields, from + 1)
    }
}

/// The fixed cursor moves over a field by the declared size of the
/// field's layout, and by nothing else.
///
/// When the code for the fields of a struct from number `from` on has run,
/// `offset` has moved forward by the declared sizes of those fields, added
/// up: whatever the fields hold, and whatever was appended for them.
pub proof fn lemma_fields_advance(
    t: Seq<LayoutEntry<'_>>,
    ptr: PtrWidth,
    fields: Seq<InLayout>,
    from: int,
    bound: InLayout,
    procs: Procs,
    v: Value,
    c: Cursors,
)
    requires
        0 <= from <= fields.len(),
    ensures
        run_ops(fields_ops(t, ptr, fields, from, bound), procs, v, c).cursors.offset == c.offset
            + total_size(t, fields, from),
    decreases fields.len() - from,
{
    if from < fields.len() {
        let field = OpView::Field {
            index: from as usize,
            code: if fields[from] < bound {
                clone_ops(t, ptr, fields[from])
            } else {
                Seq::empty()
            },
        };
        let advance = OpView::Advance { bytes: size_at(t, fields[from]) };
        let step = seq![field, advance];
        let rest = fields_ops(t, ptr, fields, from + 1, bound);
        assert(fields_ops(t, ptr, fields, from, bound) == step + rest);
        lemma_run_concat(step, rest, procs, v, c);
        let after_field = run_op(field, procs, v, c);
        assert(after_field.cursors.offset == c.offset);
        assert(step.subrange(1, 2) =~= seq![advance]);
        assert(seq![advance].subrange(1, 1) =~= Seq::<OpView>::empty());
        assert(run_ops(step, procs, v, c).cursors.offset == c.offset + size_at(t, fields[from])) by {
            reveal_with_fuel(run_ops, 3);
        }
        lemma_fields_advance(
            t,
            ptr,
            fields,
            from + 1,
            bound,
            procs,
            v,
            run_ops(step, procs, v, c).cursors,
        );
    }
}

/// What holds no pointer appends nothing.
///
/// A value of a layout that is safe to copy byte by byte is written into
/// its own bytes, in one store at most, and `extra` stays where it was.
pub proof fn lemma_plain_appends_nothing(
    t: Seq<LayoutEntry<'_>>,
    ptr: PtrWidth,
    id: InLayout,
    procs: Procs,
    v: Value,
    c: Cursors,
)
    requires
        safe_to_memcpy(t, id),
    ensures
        ({
            let outcome = run_ops(clone_ops(t, ptr, id), procs, v, c);
            &&& outcome.cursors == c
            &&& outcome.writes.len() <= 1
            &&& forall|i: int|
                0 <= i < outcome.writes.len() ==> outcome.writes[i] == (Write {
                    at: c.offset,
                    width: size_at(t, id) as int,
                    stored: Stored::Bytes,
                })
        }),
{
    let code = clone_ops(t, ptr, id);
    match t[id as int].layout {
        Layout::LambdaSet(_) => {
            assert(code =~= Seq::<OpView>::empty());
        },
        _ => {
            let store = OpView::Store { delta: 0, width: size_at(t, id), word: Word::Data };
            assert(code =~= seq![store]) by {
                reveal_with_fuel(clone_ops, 2);
                reveal_with_fuel(safe_to_memcpy, 2);
            }
            assert(code.subrange(1, 1) =~= Seq::<OpView>::empty());
            reveal_with_fuel(run_ops, 2);
            let outcome = run_ops(code, procs, v, c);
            assert(outcome.writes =~= seq![
                Write { at: c.offset, width: size_at(t, id) as int, stored: Stored::Bytes },
            ]);
        },
    }
}

/// A union has a null pointer among its variants.
pub open spec fn is_nullable_union(t: Seq<LayoutEntry<'_>>, id: InLayout) -> bool {
    &&& id < t.len()
    &&& t[id as int].layout matches Layout::Union(union) && union.spec_is_nullable()
    &&& admissible(t, id as int, t[id as int].layout)
}

/// The bytes that the procedure of a nullable union reserves at `extra`
/// for the payload of a value that is not null.
pub open spec fn payload_reserve(t: Seq<LayoutEntry<'_>>, id: InLayout) -> int {
    match t[id as int].layout {
        Layout::Union(UnionLayout::NullableUnwrapped { other_fields, .. }) => size_at(
            t,
            other_fields,
        ) as int,
        _ => t[id as int].data_size as int,
    }
}

/// The number `id` is that of a variant with a payload.
pub open spec fn has_payload(t: Seq<LayoutEntry<'_>>, union: InLayout, id: nat) -> bool {
    match t[union as int].layout {
        Layout::Union(UnionLayout::NullableWrapped { nullable_id, other_tags }) => id
            <= other_tags@.len() && id != nullable_id,
        _ => true,
    }
}

/// For the null pointer, the procedure of a nullable union writes one
/// word of zero at `offset` and leaves both cursors where they were.
pub proof fn lemma_null_sentinel(
    t: Seq<LayoutEntry<'_>>,
    ptr: PtrWidth,
    union: InLayout,
    procs: Procs,
    c: Cursors,
)
    requires
        is_nullable_union(t, union),
    ensures
        run_body(union_body(t, ptr, union), procs, Value::Null, c) == (Outcome {
            cursors: c,
            writes: seq![
                Write { at: c.offset, width: ptr.spec_bytes() as int, stored: Stored::Number(0) },
            ],
        }),
{
}

/// The position of the first case for a number.
pub proof fn lemma_find_case(cases: Seq<CaseView>, id: nat, from: int, at: int)
    requires
        0 <= from <= at < cases.len(),
        forall|j: int| from <= j < at ==> (#[trigger] cases[j]).tag_id != id,
        cases[at].tag_id == id,
    ensures
        find_case(cases, id, from) == at,
    decreases at - from,
{
    if from < at {
        lemma_find_case(cases, id, from + 1, at);
    }
}

/// What the code of a case does that writes the reference to a payload
/// and copies the payload to `extra`.
#[verifier::rlimit(40)]
pub proof fn lemma_reference_then_payload(
    in_pointer: bool,
    tag_id: u16,
    ptr: PtrWidth,
    reserve: u64,
    payload: Seq<OpView>,
    procs: Procs,
    v: Value,
    c: Cursors,
)
    ensures
        ({
            let code = pointer_stores(in_pointer, tag_id, ptr).push(
                OpView::Enter { reserve, code: payload },
            );
            let outcome = run_ops(code, procs, v, c);
            &&& outcome.cursors.offset == c.offset
            &&& outcome.cursors.extra >= c.extra + reserve
            &&& outcome.writes.len() >= 1
            &&& in_pointer ==> outcome.writes.len() >= 2 && outcome.writes[0] == (Write {
                at: c.offset,
                width: 4,
                stored: Stored::Number(tag_id as int),
            }) && outcome.writes[1] == (Write {
                at: c.offset + 4,
                width: 4,
                stored: Stored::Number(c.extra % 0x1_0000_0000),
            })
            &&& !in_pointer ==> outcome.writes[0] == (Write {
                at: c.offset,
                width: ptr.spec_bytes() as int,
                stored: Stored::Number(c.extra),
            })
        }),
{
    let stores = pointer_stores(in_pointer, tag_id, ptr);
    let enter = OpView::Enter { reserve, code: payload };
    let code = stores.push(enter);
    assert(code =~= stores + seq![enter]);
    lemma_run_concat(stores, seq![enter], procs, v, c);
    let one = run_ops(stores, procs, v, c);
    assert(one.cursors == c && (in_pointer ==> one.writes =~= seq![
        Write { at: c.offset, width: 4, stored: Stored::Number(tag_id as int) },
        Write { at: c.offset + 4, width: 4, stored: Stored::Number(c.extra % 0x1_0000_0000) },
    ]) && (!in_pointer ==> one.writes =~= seq![
        Write { at: c.offset, width: ptr.spec_bytes() as int, stored: Stored::Number(c.extra) },
    ])) by {
        reveal_with_fuel(run_ops, 3);
        if in_pointer {
            assert(stores.subrange(1, 2) =~= seq![stores[1]]);
            assert(seq![stores[1]].subrange(1, 1) =~= Seq::<OpView>::empty());
        } else {
            assert(stores.subrange(1, 1) =~= Seq::<OpView>::empty());
        }
    }
    let inner_start = Cursors { offset: c.extra, extra: c.extra + reserve };
    lemma_cursors_monotone(payload, procs, v, inner_start);
    assert(seq![enter].subrange(1, 1) =~= Seq::<OpView>::empty());
    assert(run_ops(seq![enter], procs, v, c).cursors.extra >= c.extra + reserve && run_ops(
        seq![enter],
        procs,
        v,
        c,
    ).cursors.offset == c.offset) by {
        reveal_with_fuel(run_ops, 2);
    }
}

/// For a value that is not null, the procedure of a nullable union writes
/// a reference to the payload at `offset`, and moves `extra` forward by
/// the bytes that it reserves for the payload, or more.
///
/// The reference is the offset at which the payload is written: the value
/// of `extra` when the procedure begins. Where the union keeps the
/// discriminant in the pointer, the reference is that offset cut to 32
/// bits, behind the variant's number. So the reference is not zero, where
/// `extra` is not and fits the bits that are there for it; and `extra`
/// moves where the payload has a size.
#[verifier::rlimit(40)]
pub proof fn lemma_non_null_reference(
    t: Seq<LayoutEntry<'_>>,
    ptr: PtrWidth,
    union: InLayout,
    procs: Procs,
    c: Cursors,
    id: nat,
    data: Value,
)
    requires
        is_nullable_union(t, union),
        has_payload(t, union, id),
    ensures
        ({
            let outcome = run_body(
                union_body(t, ptr, union),
                procs,
                Value::Tag { id, data: Box::new(data) },
                c,
            );
            let packed = t[union as int].layout->Union_0.spec_stores_tag_id_in_pointer(ptr);
            &&& outcome.cursors.offset == c.offset
            &&& outcome.cursors.extra >= c.extra + payload_reserve(t, union)
            &&& outcome.writes.len() >= 1
            &&& packed ==> outcome.writes.len() >= 2 && outcome.writes[0] == (Write {
                at: c.offset,
                width: 4,
                stored: Stored::Number(id as int),
            }) && outcome.writes[1] == (Write {
                at: c.offset + 4,
                width: 4,
                stored: Stored::Number(c.extra % 0x1_0000_0000),
            })
            &&& !packed ==> outcome.writes[0] == (Write {
                at: c.offset,
                width: ptr.spec_bytes() as int,
                stored: Stored::Number(c.extra),
            })
        }),
{
    let v = Value::Tag { id, data: Box::new(data) };
    match t[union as int].layout {
        Layout::Union(UnionLayout::NullableWrapped { nullable_id, other_tags }) => {
            let layout = UnionLayout::NullableWrapped { nullable_id, other_tags };
            let in_pointer = layout.spec_stores_tag_id_in_pointer(ptr);
            let data_size = t[union as int].data_size as u64;
            let cases = Seq::new(
                other_tags@.len(),
                |i: int|
                    pointer_case(
                        t,
                        ptr,
                        union,
                        (other_tags@.len() + 1) as int,
                        in_pointer,
                        false,
                        data_size,
                        tag_id_around(nullable_id, i),
                        other_tags@[i],
                    ),
            );
            let at: int = if id < nullable_id {
                id as int
            } else {
                id - 1
            };
            assert(cases[at].tag_id == id);
            assert forall|j: int| 0 <= j < at implies (#[trigger] cases[j]).tag_id != id by {}
            lemma_find_case(cases, id, 0, at);
            lemma_reference_then_payload(
                in_pointer,
                tag_id_around(nullable_id, at),
                ptr,
                data_size,
                clone_ops(t, ptr, other_tags@[at]),
                procs,
                data,
                c,
            );
            let body = union_body(t, ptr, union);
            assert(body == BodyView::NullOr {
                sentinel: ptr.spec_bytes() as u64,
                other: Box::new(switch_of(cases)),
            });
            assert(switch_of(cases) == BodyView::Switch { cases });
            assert(run_body(body, procs, v, c) == run_body(switch_of(cases), procs, v, c));
            assert(run_body(switch_of(cases), procs, v, c) == run_ops(
                cases[at].code,
                procs,
                data,
                c,
            ));
            assert(cases[at].code == pointer_stores(
                in_pointer,
                tag_id_around(nullable_id, at),
                ptr,
            ).push(
                OpView::Enter { reserve: data_size, code: clone_ops(t, ptr, other_tags@[at]) },
            ));
            assert(tag_id_around(nullable_id, at) == id);
        },
        Layout::Union(UnionLayout::NullableUnwrapped { nullable_id, other_fields }) => {
            lemma_reference_then_payload(
                false,
                0,
                ptr,
                size_at(t, other_fields),
                clone_ops(t, ptr, other_fields),
                procs,
                data,
                c,
            );
            let code = pointer_stores(false, 0, ptr).push(
                OpView::Enter {
                    reserve: size_at(t, other_fields),
                    code: clone_ops(t, ptr, other_fields),
                },
            );
            let other = BodyView::Only { variant: other_fields, code };
            let body = union_body(t, ptr, union);
            assert(body == BodyView::NullOr {
                sentinel: ptr.spec_bytes() as u64,
                other: Box::new(other),
            });
            assert(run_body(body, procs, v, c) == run_body(other, procs, v, c));
            assert(run_body(other, procs, v, c) == run_ops(code, procs, data, c));
        },
        _ => {},
    }
}

/// The procedures `some` are among the procedures `all`, and call one
/// another only.
pub open spec fn self_contained(some: Procs, all: Procs) -> bool {
    forall|union: InLayout| #[trigger]
        some.contains_key(union) ==> all.contains_key(union) && all[union] == some[union]
            && linked_body(some[union], some.dom())
}

/// The procedures that were generated are all that the code needs.
///
/// Code that calls only procedures of a set that is closed under calls
/// runs with that set as it runs with any larger one.
pub proof fn lemma_generated_suffice(
    ops: Seq<OpView>,
    some: Procs,
    all: Procs,
    v: Value,
    c: Cursors,
)
    requires
        self_contained(some, all),
        linked_ops(ops, some.dom()),
    ensures
        run_ops(ops, some, v, c) == run_ops(ops, all, v, c),
    decreases v, 1nat, ops, 0nat,
{
    if ops.len() > 0 {
        let rest = ops.subrange(1, ops.len() as int);
        lemma_linked_all(ops, some.dom());
        lemma_linked_all(rest, some.dom());
        assert forall|i: int| 0 <= i < rest.len() implies linked_op(#[trigger] rest[i], some.dom()) by {
            assert(rest[i] == ops[i + 1]);
        }
        assert(linked_op(ops[0], some.dom()));
        lemma_op_suffices(ops[0], some, all, v, c);
        lemma_generated_suffice(rest, some, all, v, run_op(ops[0], some, v, c).cursors);
    }
}

/// One operation runs with the procedures it needs as with more.
pub proof fn lemma_op_suffices(op: OpView, some: Procs, all: Procs, v: Value, c: Cursors)
    requires
        self_contained(some, all),
        linked_op(op, some.dom()),
    ensures
        run_op(op, some, v, c) == run_op(op, all, v, c),
    decreases v, 1nat, op, 0nat,
{
    match op {
        OpView::Field { index, code } => match v {
            Value::Struct { fields } => if index < fields.len() {
                lemma_generated_suffice(code, some, all, fields[index as int], c);
            },
            _ => {},
        },
        OpView::Deref { code } => match v {
            Value::Boxed { inner } => {
                lemma_generated_suffice(code, some, all, *inner, c);
            },
            _ => {},
        },
        OpView::Enter { reserve, code } => {
            lemma_generated_suffice(
                code,
                some,
                all,
                v,
                Cursors { offset: c.extra, extra: c.extra + reserve },
            );
        },
        OpView::EachElement { width, code } => match v {
            Value::Items { items } => {
                lemma_items_suffice(
                    code,
                    some,
                    all,
                    v,
                    0,
                    c.extra,
                    width as int,
                    Cursors { offset: c.extra, extra: c.extra + items.len() * width },
                );
            },
            _ => {},
        },
        OpView::Call { union } => {
            assert(some.contains_key(union));
            lemma_body_suffices(some[union], some, all, v, c);
        },
        _ => {},
    }
}

/// The run over the items of a collection is the same with the
/// procedures it needs as with more.
pub proof fn lemma_items_suffice(
    code: Seq<OpView>,
    some: Procs,
    all: Procs,
    v: Value,
    from: int,
    start: int,
    width: int,
    c: Cursors,
)
    requires
        self_contained(some, all),
        linked_ops(code, some.dom()),
    ensures
        run_items(code, some, v, from, start, width, c) == run_items(
            code,
            all,
            v,
            from,
            start,
            width,
            c,
        ),
    decreases v, 0nat, code, length_of(v) - from,
{
    match v {
        Value::Items { items } => if 0 <= from < items.len() {
            let at = Cursors { offset: start + from * width, extra: c.extra };
            lemma_generated_suffice(code, some, all, items[from], at);
            let first = run_ops(code, some, items[from], at);
            lemma_items_suffice(
                code,
                some,
                all,
                v,
                from + 1,
                start,
                width,
                Cursors { offset: c.offset, extra: first.cursors.extra },
            );
        },
        _ => {},
    }
}

/// A body runs with the procedures it needs as with more.
pub proof fn lemma_body_suffices(body: BodyView, some: Procs, all: Procs, v: Value, c: Cursors)
    requires
        self_contained(some, all),
        linked_body(body, some.dom()),
    ensures
        run_body(body, some, v, c) == run_body(body, all, v, c),
    decreases v, 0nat, body, 0nat,
{
    match body {
        BodyView::Unreachable => {},
        BodyView::Switch { cases } => match v {
            Value::Tag { id, data } => if cases.len() > 0 {
                let at = find_case(cases, id, 0);
                lemma_find_case_bounds(cases, id, 0);
                lemma_generated_suffice(cases[at].code, some, all, *data, c);
            },
            _ => {},
        },
        BodyView::Only { code, .. } => match v {
            Value::Tag { data, .. } => {
                lemma_generated_suffice(code, some, all, *data, c);
            },
            _ => {},
        },
        BodyView::NullOr { sentinel, other } => match v {
            Value::Null => {},
            _ => {
                lemma_body_suffices(*other, some, all, v, c);
            },
        },
    }
}

/// A switch with cases takes one of them.
pub proof fn lemma_find_case_bounds(cases: Seq<CaseView>, id: nat, from: int)
    requires
        cases.len() > 0,
        0 <= from,
    ensures
        0 <= find_case(cases, id, from) < cases.len(),
    decreases cases.len() - from,
{
    if from < cases.len() - 1 && cases[from].tag_id != id {
        lemma_find_case_bounds(cases, id, from + 1);
    }
}

} // verus!
