//! What the copying code does when it runs: a model of values, of the
//! buffer and of the two cursors. It is the yardstick for the code that
//! this library generates, and no part of the compiled code.
use crate::layout::InLayout;
use crate::snapshot_code::{BodyView, CaseView, OpView, Word};
use vstd::prelude::*;

verus! {

/// A value at run time, as far as copying goes.
pub enum Value {
    /// Bytes that hold no pointer.
    Plain,
    /// A string that keeps `heap_bytes` bytes on the heap: none, if it is
    /// small.
    Str { heap_bytes: nat },
    /// A collection and its items.
    Items { items: Seq<Value> },
    Struct { fields: Seq<Value> },
    /// A pointer to a heap cell, and what the cell holds.
    Boxed { inner: Box<Value> },
    /// The null pointer.
    Null,
    /// A value of a union: the number of its variant, and what is loaded
    /// as its payload.
    Tag { id: nat, data: Box<Value> },
}

/// The two cursors into the buffer.
pub struct Cursors {
    /// Where the fixed-size part of the value in focus is written.
    pub offset: int,
    /// Where what lies behind pointers is appended.
    pub extra: int,
}

/// What a store has written.
pub enum Stored {
    /// The bytes of a value.
    Bytes,
    Number(int),
}

/// One store into the buffer: `width` bytes at `at`.
pub struct Write {
    pub at: int,
    pub width: int,
    pub stored: Stored,
}

/// What a run leaves: the cursors, and the stores in the order in which
/// they were made.
pub struct Outcome {
    pub cursors: Cursors,
    pub writes: Seq<Write>,
}

/// The procedures that the code can call, by the layout of their union.
pub type Procs = Map<InLayout, BodyView>;

/// Number of items of a collection.
pub open spec fn length_of(v: Value) -> int {
    match v {
        Value::Items { items } => items.len() as int,
        _ => 0,
    }
}

/// Bytes that a string keeps on the heap.
pub open spec fn heap_bytes_of(v: Value) -> int {
    match v {
        Value::Str { heap_bytes } => heap_bytes as int,
        _ => 0,
    }
}

/// What a store writes, on the value `v` in focus and at the cursors `c`.
pub open spec fn stored(word: Word, v: Value, c: Cursors) -> Stored {
    match word {
        Word::Data => Stored::Bytes,
        Word::ExtraOffset => Stored::Number(c.extra),
        Word::ExtraOffset32 => Stored::Number(c.extra % 0x1_0000_0000),
        Word::TagId(id) => Stored::Number(id as int),
        Word::Length => Stored::Number(length_of(v)),
    }
}

/// A run that does nothing.
pub open spec fn idle(c: Cursors) -> Outcome {
    Outcome { cursors: c, writes: Seq::empty() }
}

/// The run of inner code, seen from outside: `offset` is what it was, and
/// `extra` is where the inner code left it.
pub open spec fn rejoin(c: Cursors, inner: Outcome) -> Outcome {
    Outcome { cursors: Cursors { offset: c.offset, extra: inner.cursors.extra }, writes: inner.writes }
}

/// The run of a piece of code on the value `v`, from the cursors `c`.
pub open spec fn run_ops(ops: Seq<OpView>, procs: Procs, v: Value, c: Cursors) -> Outcome
    decreases v, 1nat, ops, 0nat,
{
    if ops.len() == 0 {
        idle(c)
    } else {
        let first = run_op(ops[0], procs, v, c);
        let rest = run_ops(ops.subrange(1, ops.len() as int), procs, v, first.cursors);
        Outcome { cursors: rest.cursors, writes: first.writes + rest.writes }
    }
}

/// The run of one operation on the value `v`, from the cursors `c`.
pub open spec fn run_op(op: OpView, procs: Procs, v: Value, c: Cursors) -> Outcome
    decreases v, 1nat, op, 0nat,
{
    match op {
        OpView::Store { delta, width, word } => Outcome {
            cursors: c,
            writes: seq![
                Write { at: c.offset + delta, width: width as int, stored: stored(word, v, c) },
            ],
        },
        OpView::Advance { bytes } => Outcome {
            cursors: Cursors { offset: c.offset + bytes, extra: c.extra },
            writes: Seq::empty(),
        },
        OpView::StrCloneTo { header } => Outcome {
            cursors: Cursors { offset: c.offset, extra: c.extra + heap_bytes_of(v) },
            writes: seq![
                Write { at: c.offset, width: header as int, stored: Stored::Bytes },
                Write { at: c.extra, width: heap_bytes_of(v), stored: Stored::Bytes },
            ],
        },
        OpView::Field { index, code } => match v {
            Value::Struct { fields } => if index < fields.len() {
                rejoin(c, run_ops(code, procs, fields[index as int], c))
            } else {
                idle(c)
            },
            _ => idle(c),
        },
        OpView::Deref { code } => match v {
            Value::Boxed { inner } => rejoin(c, run_ops(code, procs, *inner, c)),
            _ => idle(c),
        },
        OpView::Enter { reserve, code } => rejoin(
            c,
            run_ops(code, procs, v, Cursors { offset: c.extra, extra: c.extra + reserve }),
        ),
        OpView::CopyElements { width } => Outcome {
            cursors: Cursors { offset: c.offset, extra: c.extra + length_of(v) * width },
            writes: seq![
                Write { at: c.extra, width: length_of(v) * width, stored: Stored::Bytes },
            ],
        },
        OpView::EachElement { width, code } => match v {
            Value::Items { items } => rejoin(
                c,
                run_items(
                    code,
                    procs,
                    v,
                    0,
                    c.extra,
                    width as int,
                    Cursors { offset: c.extra, extra: c.extra + items.len() * width },
                ),
            ),
            _ => idle(c),
        },
        OpView::Call { union } => if procs.contains_key(union) {
            rejoin(c, run_body(procs[union], procs, v, c))
        } else {
            idle(c)
        },
    }
}

/// The run of `code` on the items of the collection `v` from number `from`
/// on: item `i` with `offset` at `start + i * width`, and `extra` where the
/// item before left it.
pub open spec fn run_items(
    code: Seq<OpView>,
    procs: Procs,
    v: Value,
    from: int,
    start: int,
    width: int,
    c: Cursors,
) -> Outcome
    decreases v, 0nat, code, length_of(v) - from,
{
    match v {
        Value::Items { items } => if 0 <= from < items.len() {
            let first = run_ops(
                code,
                procs,
                items[from],
                Cursors { offset: start + from * width, extra: c.extra },
            );
            let rest = run_items(
                code,
                procs,
                v,
                from + 1,
                start,
                width,
                Cursors { offset: c.offset, extra: first.cursors.extra },
            );
            Outcome { cursors: rest.cursors, writes: first.writes + rest.writes }
        } else {
            idle(c)
        },
        _ => idle(c),
    }
}

/// The position of the case that a switch takes for a discriminant: the
/// first case with that number from `from` on, or the last case.
pub open spec fn find_case(cases: Seq<CaseView>, id: nat, from: int) -> int
    decreases cases.len() - from,
{
    if from < 0 || from >= cases.len() - 1 {
        cases.len() - 1
    } else if cases[from].tag_id == id {
        from
    } else {
        find_case(cases, id, from + 1)
    }
}

/// The run of the body of a procedure on the value `v`, from the cursors
/// `c`.
pub open spec fn run_body(body: BodyView, procs: Procs, v: Value, c: Cursors) -> Outcome
    decreases v, 0nat, body, 0nat,
{
    match body {
        BodyView::Unreachable => idle(c),
        BodyView::Switch { cases } => match v {
            Value::Tag { id, data } => if cases.len() > 0 {
                run_ops(cases[find_case(cases, id, 0)].code, procs, *data, c)
            } else {
                idle(c)
            },
            _ => idle(c),
        },
        BodyView::Only { code, .. } => match v {
            Value::Tag { data, .. } => run_ops(code, procs, *data, c),
            _ => idle(c),
        },
        BodyView::NullOr { sentinel, other } => match v {
            Value::Null => Outcome {
                cursors: c,
                writes: seq![
                    Write { at: c.offset, width: sentinel as int, stored: Stored::Number(0) },
                ],
            },
            _ => run_body(*other, procs, v, c),
        },
    }
}

/// Neither cursor ever moves back.
///
/// Whatever the code, the procedures and the value: when a piece of code
/// has run, `offset` and `extra` are at least what they were.
pub proof fn lemma_cursors_monotone(ops: Seq<OpView>, procs: Procs, v: Value, c: Cursors)
    ensures
        run_ops(ops, procs, v, c).cursors.offset >= c.offset,
        run_ops(ops, procs, v, c).cursors.extra >= c.extra,
    decreases v, 1nat, ops, 0nat,
{
    if ops.len() > 0 {
        lemma_op_monotone(ops[0], procs, v, c);
        let first = run_op(ops[0], procs, v, c);
        lemma_cursors_monotone(ops.subrange(1, ops.len() as int), procs, v, first.cursors);
    }
}

/// One operation moves neither cursor back.
pub proof fn lemma_op_monotone(op: OpView, procs: Procs, v: Value, c: Cursors)
    ensures
        run_op(op, procs, v, c).cursors.offset >= c.offset,
        run_op(op, procs, v, c).cursors.extra >= c.extra,
    decreases v, 1nat, op, 0nat,
{
    match op {
        OpView::Field { index, code } => match v {
            Value::Struct { fields } => if index < fields.len() {
                lemma_cursors_monotone(code, procs, fields[index as int], c);
            },
            _ => {},
        },
        OpView::Deref { code } => match v {
            Value::Boxed { inner } => {
                lemma_cursors_monotone(code, procs, *inner, c);
            },
            _ => {},
        },
        OpView::Enter { reserve, code } => {
            lemma_cursors_monotone(
                code,
                procs,
                v,
                Cursors { offset: c.extra, extra: c.extra + reserve },
            );
        },
        OpView::CopyElements { width } => {
            assert(length_of(v) * width >= 0) by (nonlinear_arith)
                requires
                    length_of(v) >= 0,
                    width >= 0,
            ;
        },
        OpView::EachElement { width, code } => match v {
            Value::Items { items } => {
                assert(items.len() * width >= 0) by (nonlinear_arith)
                    requires
                        items.len() >= 0,
                        width >= 0,
                ;
                lemma_items_monotone(
                    code,
                    procs,
                    v,
                    0,
                    c.extra,
                    width as int,
                    Cursors { offset: c.extra, extra: c.extra + items.len() * width },
                );
            },
            _ => {},
        },
        OpView::Call { union } => if procs.contains_key(union) {
            lemma_body_monotone(procs[union], procs, v, c);
        },
        _ => {},
    }
}

/// The run over the items of a collection does not move `extra` back.
pub proof fn lemma_items_monotone(
    code: Seq<OpView>,
    procs: Procs,
    v: Value,
    from: int,
    start: int,
    width: int,
    c: Cursors,
)
    ensures
        run_items(code, procs, v, from, start, width, c).cursors.extra >= c.extra,
    decreases v, 0nat, code, length_of(v) - from,
{
    match v {
        Value::Items { items } => if 0 <= from < items.len() {
            let at = Cursors { offset: start + from * width, extra: c.extra };
            lemma_cursors_monotone(code, procs, items[from], at);
            let first = run_ops(code, procs, items[from], at);
            lemma_items_monotone(
                code,
                procs,
                v,
                from + 1,
                start,
                width,
                Cursors { offset: c.offset, extra: first.cursors.extra },
            );
        },
        _ => {},
    }
}

/// The body of a procedure does not move `extra` back.
pub proof fn lemma_body_monotone(body: BodyView, procs: Procs, v: Value, c: Cursors)
    ensures
        run_body(body, procs, v, c).cursors.extra >= c.extra,
    decreases v, 0nat, body, 0nat,
{
    match body {
        BodyView::Unreachable => {},
        BodyView::Switch { cases } => match v {
            Value::Tag { id, data } => if cases.len() > 0 {
                lemma_cursors_monotone(cases[find_case(cases, id, 0)].code, procs, *data, c);
            },
            _ => {},
        },
        BodyView::Only { code, .. } => match v {
            Value::Tag { data, .. } => {
                lemma_cursors_monotone(code, procs, *data, c);
            },
            _ => {},
        },
        BodyView::NullOr { sentinel, other } => match v {
            Value::Null => {},
            _ => {
                lemma_body_monotone(*other, procs, v, c);
            },
        },
    }
}

} // verus!
