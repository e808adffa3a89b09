//! Where the copying code writes: the fixed-size part of a value into the
//! bytes that are reserved for it, and everything else behind `extra`.
use crate::snapshot_code::{BodyView, OpView};
use crate::layout::InLayout;
use crate::snapshot_laws::lemma_find_case_bounds;
use crate::snapshot_run::{
    find_case, lemma_body_monotone, lemma_cursors_monotone, lemma_items_monotone,
    lemma_op_monotone, length_of, run_body, run_items, run_op, run_ops, Cursors, Procs,
    Value, Write,
};
use vstd::prelude::*;

verus! {

/// The bytes that each procedure may write at `offset`, by the layout of
/// its union.
pub type Slots = Map<InLayout, int>;

/// From `offset` on, the code writes into `budget` bytes at most, and moves
/// `offset` no further than that.
pub open spec fn fits_ops(ops: Seq<OpView>, slots: Slots, budget: int) -> bool
    decreases ops,
{
    if ops.len() == 0 {
        budget >= 0
    } else {
        let rest = ops.subrange(1, ops.len() as int);
        match ops[0] {
            OpView::Advance { bytes } => bytes <= budget && fits_ops(rest, slots, budget - bytes),
            first => fits_op(first, slots, budget) && fits_ops(rest, slots, budget),
        }
    }
}

/// From `offset` on, the operation writes into `budget` bytes at most.
pub open spec fn fits_op(op: OpView, slots: Slots, budget: int) -> bool
    decreases op,
{
    match op {
        OpView::Store { delta, width, .. } => delta + width <= budget,
        OpView::Advance { bytes } => bytes <= budget,
        OpView::StrCloneTo { header } => header <= budget,
        OpView::Field { code, .. } => fits_ops(code, slots, budget),
        OpView::Deref { code } => fits_ops(code, slots, budget),
        OpView::Enter { reserve, code } => fits_ops(code, slots, reserve as int),
        OpView::CopyElements { .. } => true,
        OpView::EachElement { width, code } => fits_ops(code, slots, width as int),
        OpView::Call { union } => slots.contains_key(union) && slots[union] <= budget,
    }
}

/// From `offset` on, the body writes into `budget` bytes at most.
pub open spec fn fits_body(body: BodyView, slots: Slots, budget: int) -> bool
    decreases body,
{
    match body {
        BodyView::Unreachable => true,
        BodyView::Switch { cases } => forall|i: int|
            0 <= i < cases.len() ==> fits_ops((#[trigger] cases[i]).code, slots, budget),
        BodyView::Only { code, .. } => fits_ops(code, slots, budget),
        BodyView::NullOr { sentinel, other } => sentinel <= budget && fits_body(
            *other,
            slots,
            budget,
        ),
    }
}

/// Every procedure writes at `offset` into the bytes that `slots` names
/// for it.
pub open spec fn procs_fit(procs: Procs, slots: Slots) -> bool {
    forall|union: InLayout| #[trigger]
        procs.contains_key(union) ==> slots.contains_key(union) && fits_body(
            procs[union],
            slots,
            slots[union],
        )
}

/// A store lies in the fixed part, the `budget` bytes from `c.offset` on,
/// or in what was appended, the bytes from `c.extra` to `end`.
pub open spec fn in_bounds(w: Write, c: Cursors, budget: int, end: int) -> bool {
    ||| (c.offset <= w.at && w.at + w.width <= c.offset + budget)
    ||| (c.extra <= w.at && w.at + w.width <= end)
}

/// Every store lies in the fixed part or in what was appended.
pub open spec fn all_in_bounds(writes: Seq<Write>, c: Cursors, budget: int, end: int) -> bool {
    forall|i: int| 0 <= i < writes.len() ==> in_bounds(#[trigger] writes[i], c, budget, end)
}

/// Code that fits a budget fits a larger one.
pub proof fn lemma_fits_ops_more(ops: Seq<OpView>, slots: Slots, budget: int, more: int)
    requires
        fits_ops(ops, slots, budget),
        budget <= more,
    ensures
        fits_ops(ops, slots, more),
    decreases ops,
{
    if ops.len() > 0 {
        let rest = ops.subrange(1, ops.len() as int);
        match ops[0] {
            OpView::Advance { bytes } => {
                lemma_fits_ops_more(rest, slots, budget - bytes, more - bytes);
            },
            first => {
                lemma_fits_op_more(first, slots, budget, more);
                lemma_fits_ops_more(rest, slots, budget, more);
            },
        }
    }
}

/// An operation that fits a budget fits a larger one.
pub proof fn lemma_fits_op_more(op: OpView, slots: Slots, budget: int, more: int)
    requires
        fits_op(op, slots, budget),
        budget <= more,
    ensures
        fits_op(op, slots, more),
    decreases op,
{
    match op {
        OpView::Field { code, .. } => lemma_fits_ops_more(code, slots, budget, more),
        OpView::Deref { code } => lemma_fits_ops_more(code, slots, budget, more),
        _ => {},
    }
}

/// The fixed part is never left, and nothing is written in front of
/// `extra` but the fixed part.
///
/// Let code write its fixed part into `budget` bytes, and let these bytes
/// lie in front of `extra` when the code begins. Then `offset` never
/// moves beyond them, so never beyond where `extra` began. Every store
/// lies in these bytes, or between where `extra` began and where it is
/// in the end.
pub proof fn lemma_ops_in_bounds(
    ops: Seq<OpView>,
    procs: Procs,
    slots: Slots,
    budget: int,
    v: Value,
    c: Cursors,
)
    requires
        fits_ops(ops, slots, budget),
        procs_fit(procs, slots),
        c.offset + budget <= c.extra,
    ensures
        ({
            let outcome = run_ops(ops, procs, v, c);
            &&& c.offset <= outcome.cursors.offset <= c.offset + budget
            &&& c.extra <= outcome.cursors.extra
            &&& all_in_bounds(outcome.writes, c, budget, outcome.cursors.extra)
        }),
    decreases v, 1nat, ops, 0nat,
{
    lemma_cursors_monotone(ops, procs, v, c);
    if ops.len() > 0 {
        let rest = ops.subrange(1, ops.len() as int);
        let first = run_op(ops[0], procs, v, c);
        lemma_op_monotone(ops[0], procs, v, c);
        let left: int = match ops[0] {
            OpView::Advance { bytes } => budget - bytes,
            _ => budget,
        };
        lemma_op_in_bounds(ops[0], procs, slots, budget, v, c);
        lemma_ops_in_bounds(rest, procs, slots, left, v, first.cursors);
        lemma_cursors_monotone(rest, procs, v, first.cursors);
        let last = run_ops(rest, procs, v, first.cursors);
        let outcome = run_ops(ops, procs, v, c);
        assert forall|i: int| 0 <= i < outcome.writes.len() implies in_bounds(
            #[trigger] outcome.writes[i],
            c,
            budget,
            outcome.cursors.extra,
        ) by {
            if i < first.writes.len() {
                assert(outcome.writes[i] == first.writes[i]);
            } else {
                assert(outcome.writes[i] == last.writes[i - first.writes.len()]);
                assert(in_bounds(
                    last.writes[i - first.writes.len()],
                    first.cursors,
                    left,
                    last.cursors.extra,
                ));
            }
        }
    }
}

/// One operation stays in the fixed part and in what is appended.
pub proof fn lemma_op_in_bounds(
    op: OpView,
    procs: Procs,
    slots: Slots,
    budget: int,
    v: Value,
    c: Cursors,
)
    requires
        fits_op(op, slots, budget),
        procs_fit(procs, slots),
        c.offset + budget <= c.extra,
    ensures
        ({
            let outcome = run_op(op, procs, v, c);
            &&& c.extra <= outcome.cursors.extra
            &&& all_in_bounds(outcome.writes, c, budget, outcome.cursors.extra)
        }),
    decreases v, 1nat, op, 0nat,
{
    lemma_op_monotone(op, procs, v, c);
    match op {
        OpView::Field { index, code } => match v {
            Value::Struct { fields } => if index < fields.len() {
                lemma_ops_in_bounds(code, procs, slots, budget, fields[index as int], c);
            },
            _ => {},
        },
        OpView::Deref { code } => match v {
            Value::Boxed { inner } => {
                lemma_ops_in_bounds(code, procs, slots, budget, *inner, c);
            },
            _ => {},
        },
        OpView::Enter { reserve, code } => {
            let inner = Cursors { offset: c.extra, extra: c.extra + reserve };
            lemma_ops_in_bounds(code, procs, slots, reserve as int, v, inner);
            let outcome = run_ops(code, procs, v, inner);
            assert forall|i: int| 0 <= i < outcome.writes.len() implies in_bounds(
                #[trigger] outcome.writes[i],
                c,
                budget,
                outcome.cursors.extra,
            ) by {
                assert(in_bounds(outcome.writes[i], inner, reserve as int, outcome.cursors.extra));
            }
        },
        OpView::CopyElements { width } => {
            assert(length_of(v) * width >= 0) by (nonlinear_arith)
                requires
                    length_of(v) >= 0,
                    width >= 0,
            ;
        },
        OpView::EachElement { width, code } => match v {
            Value::Items { items } => {
                assert(items.len() * width >= 0) by (nonlinear_arith)
                    requires
                        items.len() >= 0,
                        width >= 0,
                ;
                let start = Cursors { offset: c.extra, extra: c.extra + items.len() * width };
                lemma_items_in_bounds(code, procs, slots, v, 0, c.extra, width as int, start);
                let outcome = run_items(code, procs, v, 0, c.extra, width as int, start);
                assert forall|i: int| 0 <= i < outcome.writes.len() implies in_bounds(
                    #[trigger] outcome.writes[i],
                    c,
                    budget,
                    outcome.cursors.extra,
                ) by {
                    assert(below_end(outcome.writes[i], c.extra, outcome.cursors.extra));
                }
            },
            _ => {},
        },
        OpView::Call { union } => if procs.contains_key(union) {
            lemma_body_in_bounds(procs[union], procs, slots, slots[union], v, c);
            let outcome = run_body(procs[union], procs, v, c);
            assert forall|i: int| 0 <= i < outcome.writes.len() implies in_bounds(
                #[trigger] outcome.writes[i],
                c,
                budget,
                outcome.cursors.extra,
            ) by {
                assert(in_bounds(outcome.writes[i], c, slots[union], outcome.cursors.extra));
            }
        },
        _ => {},
    }
}

/// A store lies between `from` and `end`.
pub open spec fn below_end(w: Write, from: int, end: int) -> bool {
    from <= w.at && w.at + w.width <= end
}

/// The run over the items of a collection writes between where the items
/// begin and where `extra` is in the end.
pub proof fn lemma_items_in_bounds(
    code: Seq<OpView>,
    procs: Procs,
    slots: Slots,
    v: Value,
    from: int,
    start: int,
    width: int,
    c: Cursors,
)
    requires
        fits_ops(code, slots, width),
        procs_fit(procs, slots),
        0 <= from,
        0 <= width,
        start + length_of(v) * width <= c.extra,
    ensures
        ({
            let outcome = run_items(code, procs, v, from, start, width, c);
            &&& c.extra <= outcome.cursors.extra
            &&& forall|i: int|
                0 <= i < outcome.writes.len() ==> below_end(
                    #[trigger] outcome.writes[i],
                    start,
                    outcome.cursors.extra,
                )
        }),
    decreases v, 0nat, code, length_of(v) - from,
{
    lemma_items_monotone(code, procs, v, from, start, width, c);
    match v {
        Value::Items { items } => if 0 <= from < items.len() {
            let at = Cursors { offset: start + from * width, extra: c.extra };
            assert(from * width >= 0 && (from + 1) * width <= items.len() * width) by (nonlinear_arith)
                requires
                    0 <= from < items.len(),
                    0 <= width,
            ;
            assert((from + 1) * width == from * width + width) by (nonlinear_arith);
            lemma_ops_in_bounds(code, procs, slots, width, items[from], at);
            lemma_cursors_monotone(code, procs, items[from], at);
            let first = run_ops(code, procs, items[from], at);
            let next = Cursors { offset: c.offset, extra: first.cursors.extra };
            lemma_items_in_bounds(code, procs, slots, v, from + 1, start, width, next);
            lemma_items_monotone(code, procs, v, from + 1, start, width, next);
            let rest = run_items(code, procs, v, from + 1, start, width, next);
            let outcome = run_items(code, procs, v, from, start, width, c);
            assert forall|i: int| 0 <= i < outcome.writes.len() implies below_end(
                #[trigger] outcome.writes[i],
                start,
                outcome.cursors.extra,
            ) by {
                if i < first.writes.len() {
                    assert(outcome.writes[i] == first.writes[i]);
                    assert(in_bounds(first.writes[i], at, width, first.cursors.extra));
                } else {
                    assert(outcome.writes[i] == rest.writes[i - first.writes.len()]);
                }
            }
        },
        _ => {},
    }
}

/// The body of a procedure stays in the fixed part and in what is
/// appended.
pub proof fn lemma_body_in_bounds(
    body: BodyView,
    procs: Procs,
    slots: Slots,
    budget: int,
    v: Value,
    c: Cursors,
)
    requires
        fits_body(body, slots, budget),
        procs_fit(procs, slots),
        c.offset + budget <= c.extra,
    ensures
        ({
            let outcome = run_body(body, procs, v, c);
            &&& c.extra <= outcome.cursors.extra
            &&& all_in_bounds(outcome.writes, c, budget, outcome.cursors.extra)
        }),
    decreases v, 0nat, body, 0nat,
{
    lemma_body_monotone(body, procs, v, c);
    match body {
        BodyView::Unreachable => {},
        BodyView::Switch { cases } => match v {
            Value::Tag { id, data } => if cases.len() > 0 {
                let at = find_case(cases, id, 0);
                lemma_find_case_bounds(cases, id, 0);
                lemma_ops_in_bounds(cases[at].code, procs, slots, budget, *data, c);
            },
            _ => {},
        },
        BodyView::Only { code, .. } => match v {
            Value::Tag { data, .. } => {
                lemma_ops_in_bounds(code, procs, slots, budget, *data, c);
            },
            _ => {},
        },
        BodyView::NullOr { sentinel, other } => match v {
            Value::Null => {},
            _ => {
                lemma_body_in_bounds(*other, procs, slots, budget, v, c);
            },
        },
    }
}

/// Every store lies at `low` or behind it.
pub open spec fn all_from(writes: Seq<Write>, low: int) -> bool {
    forall|i: int| 0 <= i < writes.len() ==> low <= (#[trigger] writes[i]).at
}

/// Nothing is written in front of the cursors.
///
/// Whatever the code, the procedures, the value and the declared sizes:
/// every store lies at or behind the lower of the two cursors as they were
/// when the code began. So what the buffer holds in front of them is never
/// touched.
pub proof fn lemma_writes_behind(ops: Seq<OpView>, procs: Procs, v: Value, c: Cursors, low: int)
    requires
        low <= c.offset,
        low <= c.extra,
    ensures
        all_from(run_ops(ops, procs, v, c).writes, low),
    decreases v, 1nat, ops, 0nat,
{
    if ops.len() > 0 {
        let rest = ops.subrange(1, ops.len() as int);
        let first = run_op(ops[0], procs, v, c);
        lemma_op_monotone(ops[0], procs, v, c);
        lemma_op_writes_behind(ops[0], procs, v, c, low);
        lemma_writes_behind(rest, procs, v, first.cursors, low);
        let last = run_ops(rest, procs, v, first.cursors);
        let outcome = run_ops(ops, procs, v, c);
        assert forall|i: int| 0 <= i < outcome.writes.len() implies low <= (
        #[trigger] outcome.writes[i]).at by {
            if i < first.writes.len() {
                assert(outcome.writes[i] == first.writes[i]);
            } else {
                assert(outcome.writes[i] == last.writes[i - first.writes.len()]);
            }
        }
    }
}

/// One operation writes nothing in front of the cursors. What it appends,
/// it writes at or behind `extra`.
pub proof fn lemma_op_writes_behind(op: OpView, procs: Procs, v: Value, c: Cursors, low: int)
    requires
        low <= c.offset,
        low <= c.extra,
    ensures
        all_from(run_op(op, procs, v, c).writes, low),
        op is Enter || op is EachElement || op is CopyElements ==> all_from(
            run_op(op, procs, v, c).writes,
            c.extra,
        ),
    decreases v, 1nat, op, 0nat,
{
    match op {
        OpView::Field { index, code } => match v {
            Value::Struct { fields } => if index < fields.len() {
                lemma_writes_behind(code, procs, fields[index as int], c, low);
            },
            _ => {},
        },
        OpView::Deref { code } => match v {
            Value::Boxed { inner } => {
                lemma_writes_behind(code, procs, *inner, c, low);
            },
            _ => {},
        },
        OpView::Enter { reserve, code } => {
            let inner = Cursors { offset: c.extra, extra: c.extra + reserve };
            lemma_writes_behind(code, procs, v, inner, c.extra);
        },
        OpView::EachElement { width, code } => match v {
            Value::Items { items } => {
                assert(items.len() * width >= 0) by (nonlinear_arith)
                    requires
                        items.len() >= 0,
                        width >= 0,
                ;
                let start = Cursors { offset: c.extra, extra: c.extra + items.len() * width };
                lemma_items_writes_behind(code, procs, v, 0, c.extra, width as int, start);
            },
            _ => {},
        },
        OpView::Call { union } => if procs.contains_key(union) {
            lemma_body_writes_behind(procs[union], procs, v, c, low);
        },
        _ => {},
    }
}

/// The run over the items of a collection writes nothing in front of the
/// items.
pub proof fn lemma_items_writes_behind(
    code: Seq<OpView>,
    procs: Procs,
    v: Value,
    from: int,
    start: int,
    width: int,
    c: Cursors,
)
    requires
        0 <= from,
        0 <= width,
        start <= c.extra,
    ensures
        all_from(run_items(code, procs, v, from, start, width, c).writes, start),
    decreases v, 0nat, code, length_of(v) - from,
{
    match v {
        Value::Items { items } => if 0 <= from < items.len() {
            let at = Cursors { offset: start + from * width, extra: c.extra };
            assert(from * width >= 0) by (nonlinear_arith)
                requires
                    0 <= from,
                    0 <= width,
            ;
            lemma_writes_behind(code, procs, items[from], at, start);
            lemma_cursors_monotone(code, procs, items[from], at);
            let first = run_ops(code, procs, items[from], at);
            let next = Cursors { offset: c.offset, extra: first.cursors.extra };
            lemma_items_writes_behind(code, procs, v, from + 1, start, width, next);
            let rest = run_items(code, procs, v, from + 1, start, width, next);
            let outcome = run_items(code, procs, v, from, start, width, c);
            assert forall|i: int| 0 <= i < outcome.writes.len() implies start <= (
            #[trigger] outcome.writes[i]).at by {
                if i < first.writes.len() {
                    assert(outcome.writes[i] == first.writes[i]);
                } else {
                    assert(outcome.writes[i] == rest.writes[i - first.writes.len()]);
                }
            }
        },
        _ => {},
    }
}

/// The body of a procedure writes nothing in front of the cursors.
pub proof fn lemma_body_writes_behind(body: BodyView, procs: Procs, v: Value, c: Cursors, low: int)
    requires
        low <= c.offset,
        low <= c.extra,
    ensures
        all_from(run_body(body, procs, v, c).writes, low),
    decreases v, 0nat, body, 0nat,
{
    match body {
        BodyView::Unreachable => {},
        BodyView::Switch { cases } => match v {
            Value::Tag { id, data } => if cases.len() > 0 {
                let at = find_case(cases, id, 0);
                lemma_find_case_bounds(cases, id, 0);
                lemma_writes_behind(cases[at].code, procs, *data, c, low);
            },
            _ => {},
        },
        BodyView::Only { code, .. } => match v {
            Value::Tag { data, .. } => {
                lemma_writes_behind(code, procs, *data, c, low);
            },
            _ => {},
        },
        BodyView::NullOr { sentinel, other } => match v {
            Value::Null => {},
            _ => {
                lemma_body_writes_behind(*other, procs, v, c, low);
            },
        },
    }
}

} // verus!
