//! The frames that a failing expectation leaves in the shared buffer.
//!
//! The first two words of the buffer hold the number of frames and the
//! offset of the first free byte. A frame is appended there: a header of
//! the source range and the module of the expectation, then for each
//! variable that is looked up the offset of its value and the number of
//! its type, then the values themselves, copied as `snapshot_gen`
//! describes. The two words are written last, so a reader never sees a
//! frame that is not whole.
use crate::layout::{InLayout, LayoutEntry, LayoutInterner, PtrWidth};
use crate::snapshot_code::{ops_view, Op, OpView};
use crate::snapshot_gen::{
    build_clone, clone_ops, lemma_extends_present, lemma_extends_trans, lemma_linked_concat,
    lemma_only_for_part, lemma_only_for_same, linked_ops, only_for, part_of, size_at, CloneProcs,
};
use crate::snapshot_run::{lemma_cursors_monotone, run_ops, Cursors, Procs, Stored, Value, Write};
use crate::snapshot_sizes::{lemma_clone_in_bounds, procs_of, sizes_fit};
use crate::symbol::ModuleId;
use vstd::prelude::*;

verus! {

/// What the backend generates code for.
#[derive(Clone, Copy, Debug, PartialEq, Eq, Structural)]
pub enum BackendMode {
    Binary,
    BinaryDev,
    BinaryGlue,
    GenTest,
    WasmGenTest,
    CliTest,
}

/// A function of the runtime that the generated code calls.
#[derive(Clone, Copy, Debug, PartialEq, Eq, Structural)]
pub enum RuntimeFn {
    /// Opens the buffer in a file that is shared with the parent process.
    ExpectFailedStartSharedFile,
    /// Hands out the buffer of this process.
    ExpectFailedStartSharedBuffer,
    /// Tells the parent process that an expectation has failed.
    NotifyParentExpect,
    /// Tells the parent process that a value was printed for debugging.
    NotifyParentDbg,
}

/// The buffer, by the function of the runtime that hands it out.
#[derive(Clone, Copy, Debug, PartialEq, Eq, Structural)]
pub struct SharedMemoryPointer {
    pub start_function: RuntimeFn,
}

impl SharedMemoryPointer {
    pub open spec fn spec_get(mode: BackendMode) -> SharedMemoryPointer {
        SharedMemoryPointer {
            start_function: if mode == BackendMode::BinaryDev {
                RuntimeFn::ExpectFailedStartSharedFile
            } else {
                RuntimeFn::ExpectFailedStartSharedBuffer
            },
        }
    }

    /// The buffer for a backend mode: a shared file where a binary is
    /// built for development, the process's own buffer everywhere else.
    pub fn get(mode: BackendMode) -> (shared_memory: SharedMemoryPointer)
        ensures
            shared_memory == Self::spec_get(mode),
    {
        let start_function = if let BackendMode::BinaryDev = mode {
            RuntimeFn::ExpectFailedStartSharedFile
        } else {
            RuntimeFn::ExpectFailedStartSharedBuffer
        };
        SharedMemoryPointer { start_function }
    }
}

/// The call that ends the frame of a failed expectation.
pub fn notify_parent_expect(shared_memory: &SharedMemoryPointer) -> (op: FrameOp)
    ensures
        op@ == (FrameOpView::Notify { function: RuntimeFn::NotifyParentExpect }),
{
    FrameOp::Notify { function: RuntimeFn::NotifyParentExpect }
}

/// The call that ends the frame of a value that was printed for debugging.
pub fn notify_parent_dbg(shared_memory: &SharedMemoryPointer) -> (op: FrameOp)
    ensures
        op@ == (FrameOpView::Notify { function: RuntimeFn::NotifyParentDbg }),
{
    FrameOp::Notify { function: RuntimeFn::NotifyParentDbg }
}

/// A range of the source text, by the offsets of its first byte and of
/// the byte behind its last.
#[derive(Clone, Copy, Debug, PartialEq, Eq, Structural)]
pub struct Region {
    pub start: u32,
    pub end: u32,
}

/// Bytes of the header of a frame: three numbers of 32 bits.
pub const HEADER_BYTES: u64 = 12;

/// Bytes of the number of a variable's type.
pub const VARIABLE_BYTES: u64 = 4;

/// One step of the code that appends a frame. The code keeps one cursor,
/// `offset`, the first free byte of the buffer.
#[derive(Debug, PartialEq, Eq)]
pub enum FrameOp {
    /// Reads the number of frames and `offset` from the first two words of
    /// the buffer.
    ReadState,
    /// Writes a number of 32 bits at `offset` and moves `offset` behind it.
    StoreU32 { value: u32 },
    /// Marks `offset` as the place of the table of the variables and moves
    /// `offset` over the table.
    SkipTable { bytes: u64 },
    /// Marks `offset` as the start of the value of a variable and runs the
    /// code that copies the value there, with `extra` behind the `reserve`
    /// bytes of the value itself. Then `offset` is where `extra` was left.
    CloneLookup { index: usize, layout: InLayout, reserve: u64, code: Vec<Op> },
    /// Writes into the table, `delta` bytes from its place, the start of
    /// the value of a variable in `ptr_bytes` bytes and the number of its
    /// type in four.
    StoreLookup { index: usize, delta: u64, ptr_bytes: u64, variable: u32 },
    /// Writes the number of frames, one more than was read, and `offset`
    /// into the first two words of the buffer.
    WriteState,
    /// Calls a function of the runtime on the buffer.
    Notify { function: RuntimeFn },
}

pub enum FrameOpView {
    ReadState,
    StoreU32 { value: u32 },
    SkipTable { bytes: u64 },
    CloneLookup { index: usize, layout: InLayout, reserve: u64, code: Seq<OpView> },
    StoreLookup { index: usize, delta: u64, ptr_bytes: u64, variable: u32 },
    WriteState,
    Notify { function: RuntimeFn },
}

impl View for FrameOp {
    type V = FrameOpView;

    open spec fn view(&self) -> FrameOpView {
        match self {
            FrameOp::ReadState => FrameOpView::ReadState,
            FrameOp::StoreU32 { value } => FrameOpView::StoreU32 { value: *value },
            FrameOp::SkipTable { bytes } => FrameOpView::SkipTable { bytes: *bytes },
            FrameOp::CloneLookup { index, layout, reserve, code } => FrameOpView::CloneLookup {
                index: *index,
                layout: *layout,
                reserve: *reserve,
                code: ops_view(code@),
            },
            FrameOp::StoreLookup { index, delta, ptr_bytes, variable } => FrameOpView::StoreLookup {
                index: *index,
                delta: *delta,
                ptr_bytes: *ptr_bytes,
                variable: *variable,
            },
            FrameOp::WriteState => FrameOpView::WriteState,
            FrameOp::Notify { function } => FrameOpView::Notify { function: *function },
        }
    }
}

/// The views of the steps of a frame's code.
pub open spec fn frame_view(ops: Seq<FrameOp>) -> Seq<FrameOpView> {
    Seq::new(ops.len(), |i: int| ops[i]@)
}

/// The steps that write the header of a frame: where the source range of
/// the expectation starts, where it ends, and the module it is in.
pub open spec fn header_ops(condition_module: ModuleId, region: Region) -> Seq<FrameOpView> {
    seq![
        FrameOpView::StoreU32 { value: region.start },
        FrameOpView::StoreU32 { value: region.end },
        FrameOpView::StoreU32 { value: condition_module },
    ]
}

/// Bytes of one row of the table of the variables.
pub open spec fn row_bytes(ptr: PtrWidth) -> int {
    ptr.spec_bytes() + VARIABLE_BYTES
}

/// The step that copies the value of the variable number `index`.
pub open spec fn lookup_op(
    t: Seq<LayoutEntry<'_>>,
    ptr: PtrWidth,
    lookups: Seq<InLayout>,
    index: int,
) -> FrameOpView {
    FrameOpView::CloneLookup {
        index: index as usize,
        layout: lookups[index],
        reserve: size_at(t, lookups[index]),
        code: clone_ops(t, ptr, lookups[index]),
    }
}

/// The step that fills the row of the variable number `index`.
pub open spec fn row_op(ptr: PtrWidth, variables: Seq<u32>, index: int) -> FrameOpView {
    FrameOpView::StoreLookup {
        index: index as usize,
        delta: (index * row_bytes(ptr)) as u64,
        ptr_bytes: ptr.spec_bytes() as u64,
        variable: variables[index],
    }
}

/// Number of rows that are filled: a variable has a row if its layout and
/// the number of its type are both given.
pub open spec fn rows(lookups: Seq<InLayout>, variables: Seq<u32>) -> int {
    if lookups.len() <= variables.len() {
        lookups.len() as int
    } else {
        variables.len() as int
    }
}

/// The code that appends the frame of an expectation in the module
/// `condition_module` at the source range `region`, with the values of the
/// variables whose layouts are `lookups` and whose types have the numbers
/// `variables`.
pub open spec fn frame_ops(
    t: Seq<LayoutEntry<'_>>,
    ptr: PtrWidth,
    condition_module: ModuleId,
    region: Region,
    lookups: Seq<InLayout>,
    variables: Seq<u32>,
) -> Seq<FrameOpView> {
    seq![FrameOpView::ReadState] + header_ops(condition_module, region) + seq![
        FrameOpView::SkipTable { bytes: (lookups.len() * row_bytes(ptr)) as u64 },
    ] + Seq::new(lookups.len(), |i: int| lookup_op(t, ptr, lookups, i)) + Seq::new(
        rows(lookups, variables) as nat,
        |i: int| row_op(ptr, variables, i),
    ) + seq![FrameOpView::WriteState]
}

/// The code that copies the values of the variables from number `from`
/// on, one piece behind the other.
pub open spec fn lookups_code(
    t: Seq<LayoutEntry<'_>>,
    ptr: PtrWidth,
    lookups: Seq<InLayout>,
    from: int,
) -> Seq<OpView>
    decreases lookups.len() - from,
{
    if from < 0 || from >= lookups.len() {
        Seq::empty()
    } else {
        clone_ops(t, ptr, lookups[from]) + lookups_code(t, ptr, lookups, from + 1)
    }
}

/// The code for one variable is a part of the code for all of them.
pub proof fn lemma_lookup_is_part(
    t: Seq<LayoutEntry<'_>>,
    ptr: PtrWidth,
    lookups: Seq<InLayout>,
    from: int,
    at: int,
    all: Set<InLayout>,
)
    requires
        0 <= from <= at < lookups.len(),
        linked_ops(lookups_code(t, ptr, lookups, from), all),
    ensures
        linked_ops(clone_ops(t, ptr, lookups[at]), all),
    decreases at - from,
{
    lemma_linked_concat(
        clone_ops(t, ptr, lookups[from]),
        lookups_code(t, ptr, lookups, from + 1),
        all,
    );
    if from < at {
        lemma_lookup_is_part(t, ptr, lookups, from + 1, at, all);
    }
}

fn push_frame_op(frame: &mut Vec<FrameOp>, op: FrameOp)
    ensures
        frame_view(final(frame)@) == frame_view(old(frame)@).push(op@),
{
    frame.push(op);
    assert(frame_view(frame@) =~= frame_view(old(frame)@).push(op@));
}

/// Adds the step that reads the first two words of the buffer, the
/// number of frames and the first free byte.
pub fn read_state(frame: &mut Vec<FrameOp>)
    ensures
        frame_view(final(frame)@) == frame_view(old(frame)@).push(FrameOpView::ReadState),
{
    push_frame_op(frame, FrameOp::ReadState);
}

/// Adds the step that writes the first two words of the buffer.
pub fn write_state(frame: &mut Vec<FrameOp>)
    ensures
        frame_view(final(frame)@) == frame_view(old(frame)@).push(FrameOpView::WriteState),
{
    push_frame_op(frame, FrameOp::WriteState);
}

/// Adds the steps that write the module and the region into the buffer,
/// and returns the bytes that they take.
pub fn write_header(frame: &mut Vec<FrameOp>, condition_module: ModuleId, region: Region) -> (bytes:
    u64)
    ensures
        frame_view(final(frame)@) == frame_view(old(frame)@) + header_ops(condition_module, region),
        bytes == HEADER_BYTES,
{
    push_frame_op(frame, FrameOp::StoreU32 { value: region.start });
    push_frame_op(frame, FrameOp::StoreU32 { value: region.end });
    push_frame_op(frame, FrameOp::StoreU32 { value: condition_module });
    assert(frame_view(frame@) =~= frame_view(old(frame)@) + header_ops(condition_module, region));
    12
}

/// Generates the code that appends a frame to the shared buffer.
///
/// Shape of a frame:
///
/// ```text
///     fixed-size header
/// /-- offset of value 1   (pointer width)
/// |   type of value 1     (32 bits)
/// |   ..
/// |   offset of value n   (pointer width)
/// |   type of value n     (32 bits)
/// \-> value 1             (as large as it is)
///     ..
///     value n             (as large as it is)
/// ```
#[verifier::rlimit(40)]
pub fn clone_to_shared_memory(
    table: &LayoutInterner,
    procs: &mut CloneProcs,
    shared_memory: &SharedMemoryPointer,
    condition_module: ModuleId,
    region: Region,
    lookups: &[InLayout],
    lookup_variables: &[u32],
) -> (frame: Vec<FrameOp>)
    requires
        table.wf(),
        table.spec_is_closed(),
        old(procs).wf(table),
        forall|i: int| 0 <= i < lookups@.len() ==> table.contains(#[trigger] lookups@[i]),
        lookups@.len() * 12 <= u64::MAX,
    ensures
        final(procs).wf(table),
        final(procs).extends(old(procs)),
        only_for(
            table@,
            table.spec_ptr_width(),
            lookups_code(table@, table.spec_ptr_width(), lookups@, 0),
            old(procs).present_set(),
            final(procs).present_set(),
        ),
        frame_view(frame@) == frame_ops(
            table@,
            table.spec_ptr_width(),
            condition_module,
            region,
            lookups@,
            lookup_variables@,
        ),
{
    let ptr = table.ptr_width();
    let row: u64 = ptr.bytes() as u64 + 4;
    let ghost before_set = old(procs).present_set();
    let ghost whole = lookups_code(table@, ptr, lookups@, 0);
    proof {
        lemma_only_for_same(table@, ptr, whole, before_set);
    }
    let mut frame: Vec<FrameOp> = Vec::new();
    assert(frame_view(frame@) =~= Seq::<FrameOpView>::empty());

    read_state(&mut frame);
    write_header(&mut frame, condition_module, region);

    let count = lookups.len();
    assert(count * row <= u64::MAX) by (nonlinear_arith)
        requires
            count * 12 <= u64::MAX,
            row <= 12,
    ;
    let space_for_offsets: u64 = count as u64 * row;
    push_frame_op(&mut frame, FrameOp::SkipTable { bytes: space_for_offsets });

    let ghost prefix = frame_view(frame@);
    assert(prefix =~= seq![FrameOpView::ReadState] + header_ops(condition_module, region) + seq![
        FrameOpView::SkipTable { bytes: (lookups@.len() * row_bytes(ptr)) as u64 },
    ]);

    let mut i: usize = 0;
    while i < count
        invariant
            table.wf(),
            table.spec_is_closed(),
            procs.wf(table),
            procs.extends(old(procs)),
            forall|k: int| 0 <= k < lookups@.len() ==> table.contains(#[trigger] lookups@[k]),
            ptr == table.spec_ptr_width(),
            count == lookups@.len(),
            i <= count,
            before_set == old(procs).present_set(),
            whole == lookups_code(table@, ptr, lookups@, 0),
            only_for(table@, ptr, whole, before_set, procs.present_set()),
            frame_view(frame@) == prefix + Seq::new(
                i as nat,
                |k: int| lookup_op(table@, ptr, lookups@, k),
            ),
        decreases count - i,
    {
        let layout = lookups[i];
        let ghost entry = *procs;
        let ghost before = frame_view(frame@);
        let stack_size = table.stack_size(layout) as u64;
        let code = build_clone(table, procs, layout);
        push_frame_op(&mut frame, FrameOp::CloneLookup { index: i, layout, reserve: stack_size, code });
        proof {
            lemma_extends_trans(old(procs), &entry, procs);
            lemma_extends_present(old(procs), &entry);
            let inner = clone_ops(table@, ptr, layout);
            assert(part_of(inner, whole)) by {
                reveal(part_of);
                assert forall|all: Set<InLayout>| #[trigger] linked_ops(whole, all) implies linked_ops(
                    inner,
                    all,
                ) by {
                    lemma_lookup_is_part(table@, ptr, lookups@, 0, i as int, all);
                }
            }
            lemma_only_for_part(
                table@,
                ptr,
                inner,
                whole,
                before_set,
                entry.present_set(),
                procs.present_set(),
            );
            assert(frame_view(frame@) =~= prefix + Seq::new(
                (i + 1) as nat,
                |k: int| lookup_op(table@, ptr, lookups@, k),
            ));
        }
        i += 1;
    }

    let ghost values = frame_view(frame@);
    let filled = if lookups.len() <= lookup_variables.len() {
        lookups.len()
    } else {
        lookup_variables.len()
    };
    let mut j: usize = 0;
    while j < filled
        invariant
            ptr == table.spec_ptr_width(),
            row == row_bytes(ptr),
            filled == rows(lookups@, lookup_variables@),
            filled * row <= u64::MAX,
            j <= filled,
            frame_view(frame@) == values + Seq::new(
                j as nat,
                |k: int| row_op(ptr, lookup_variables@, k),
            ),
        decreases filled - j,
    {
        assert(j * row <= filled * row) by (nonlinear_arith)
            requires
                j <= filled,
                row >= 0,
        ;
        // Store the pointer to the value, then the number of its type
        push_frame_op(
            &mut frame,
            FrameOp::StoreLookup {
                index: j,
                delta: j as u64 * row,
                ptr_bytes: ptr.bytes() as u64,
                variable: lookup_variables[j],
            },
        );
        assert(frame_view(frame@) =~= values + Seq::new(
            (j + 1) as nat,
            |k: int| row_op(ptr, lookup_variables@, k),
        ));
        j += 1;
    }

    write_state(&mut frame);
    frame
}

/// The buffer while a frame is appended.
pub struct FrameState {
    /// The number of frames that the first word of the buffer holds.
    pub count: int,
    /// The first free byte.
    pub offset: int,
    /// The place of the table of the variables.
    pub table_at: int,
    /// The start of the value of each variable that was copied.
    pub starts: Map<int, int>,
    /// The stores behind the first two words, in order.
    pub writes: Seq<Write>,
    /// What was written into the first two words, if they were written:
    /// the number of frames and the first free byte.
    pub committed: Option<(int, int)>,
}

/// What one step of a frame's code does, on the values of the variables.
pub open spec fn run_frame_op(op: FrameOpView, procs: Procs, values: Seq<Value>, s: FrameState) -> FrameState {
    match op {
        FrameOpView::ReadState => s,
        FrameOpView::StoreU32 { value } => FrameState {
            offset: s.offset + 4,
            writes: s.writes.push(
                Write { at: s.offset, width: 4, stored: Stored::Number(value as int) },
            ),
            ..s
        },
        FrameOpView::SkipTable { bytes } => FrameState {
            table_at: s.offset,
            offset: s.offset + bytes,
            ..s
        },
        FrameOpView::CloneLookup { index, reserve, code, .. } => {
            let outcome = run_ops(
                code,
                procs,
                values[index as int],
                Cursors { offset: s.offset, extra: s.offset + reserve },
            );
            FrameState {
                starts: s.starts.insert(index as int, s.offset),
                offset: outcome.cursors.extra,
                writes: s.writes + outcome.writes,
                ..s
            }
        },
        FrameOpView::StoreLookup { index, delta, ptr_bytes, variable } => FrameState {
            writes: s.writes.push(
                Write {
                    at: s.table_at + delta,
                    width: ptr_bytes as int,
                    stored: Stored::Number(s.starts[index as int]),
                },
            ).push(
                Write {
                    at: s.table_at + delta + ptr_bytes,
                    width: 4,
                    stored: Stored::Number(variable as int),
                },
            ),
            ..s
        },
        FrameOpView::WriteState => FrameState {
            committed: Some((s.count + 1, s.offset)),
            ..s
        },
        FrameOpView::Notify { .. } => s,
    }
}

/// What the code of a frame does, step by step.
pub open spec fn run_frame(ops: Seq<FrameOpView>, procs: Procs, values: Seq<Value>, s: FrameState) -> FrameState
    decreases ops.len(),
{
    if ops.len() == 0 {
        s
    } else {
        run_frame(
            ops.subrange(1, ops.len() as int),
            procs,
            values,
            run_frame_op(ops[0], procs, values, s),
        )
    }
}

/// Code that is made of two pieces runs as the first piece and then the
/// second.
pub proof fn lemma_frame_concat(
    first: Seq<FrameOpView>,
    second: Seq<FrameOpView>,
    procs: Procs,
    values: Seq<Value>,
    s: FrameState,
)
    ensures
        run_frame(first + second, procs, values, s) == run_frame(
            second,
            procs,
            values,
            run_frame(first, procs, values, s),
        ),
    decreases first.len(),
{
    let whole = first + second;
    if first.len() == 0 {
        assert(whole =~= second);
    } else {
        assert(whole[0] == first[0]);
        assert(whole.subrange(1, whole.len() as int) =~= first.subrange(1, first.len() as int)
            + second);
        lemma_frame_concat(
            first.subrange(1, first.len() as int),
            second,
            procs,
            values,
            run_frame_op(first[0], procs, values, s),
        );
    }
}

/// Steps that do not write the first two words leave them alone, and do
/// not move the first free byte back.
pub proof fn lemma_frame_uncommitted(
    ops: Seq<FrameOpView>,
    procs: Procs,
    values: Seq<Value>,
    s: FrameState,
)
    requires
        forall|i: int| 0 <= i < ops.len() ==> !((#[trigger] ops[i]) is WriteState),
    ensures
        run_frame(ops, procs, values, s).committed == s.committed,
        run_frame(ops, procs, values, s).count == s.count,
        run_frame(ops, procs, values, s).offset >= s.offset,
    decreases ops.len(),
{
    if ops.len() > 0 {
        let rest = ops.subrange(1, ops.len() as int);
        assert forall|i: int| 0 <= i < rest.len() implies !((#[trigger] rest[i]) is WriteState) by {
            assert(rest[i] == ops[i + 1]);
        }
        assert(!(ops[0] is WriteState));
        match ops[0] {
            FrameOpView::CloneLookup { index, reserve, code, .. } => {
                lemma_cursors_monotone(
                    code,
                    procs,
                    values[index as int],
                    Cursors { offset: s.offset, extra: s.offset + reserve },
                );
            },
            _ => {},
        }
        lemma_frame_uncommitted(rest, procs, values, run_frame_op(ops[0], procs, values, s));
    }
}

/// A frame is committed last, and the buffer only grows.
///
/// When the code that appends a frame has run, the first two words of the
/// buffer hold one frame more than before and the first free byte behind
/// all that was written. Until the last step they are what they were. The
/// first free byte has moved forward by the header and the table of the
/// variables, or more.
#[verifier::rlimit(40)]
pub proof fn lemma_frame_commits(
    t: Seq<LayoutEntry<'_>>,
    ptr: PtrWidth,
    condition_module: ModuleId,
    region: Region,
    lookups: Seq<InLayout>,
    variables: Seq<u32>,
    procs: Procs,
    values: Seq<Value>,
    s: FrameState,
)
    requires
        lookups.len() * row_bytes(ptr) <= u64::MAX,
    ensures
        ({
            let code = frame_ops(t, ptr, condition_module, region, lookups, variables);
            let before_commit = run_frame(code.drop_last(), procs, values, s);
            let end = run_frame(code, procs, values, s);
            &&& code.last() == FrameOpView::WriteState
            &&& before_commit.committed == s.committed
            &&& end.committed == Some((s.count + 1, end.offset))
            &&& end.offset >= s.offset + HEADER_BYTES + lookups.len() * row_bytes(ptr)
        }),
{
    let code = frame_ops(t, ptr, condition_module, region, lookups, variables);
    let head = seq![FrameOpView::ReadState] + header_ops(condition_module, region) + seq![
        FrameOpView::SkipTable { bytes: (lookups.len() * row_bytes(ptr)) as u64 },
    ];
    let copies = Seq::new(lookups.len(), |i: int| lookup_op(t, ptr, lookups, i));
    let table = Seq::new(rows(lookups, variables) as nat, |i: int| row_op(ptr, variables, i));
    let body = head + copies + table;
    assert(code == body + seq![FrameOpView::WriteState]);
    assert(code.drop_last() =~= body);
    let after_head = run_frame(head, procs, values, s);
    assert(after_head.offset == s.offset + HEADER_BYTES + lookups.len() * row_bytes(ptr)
        && after_head.committed == s.committed && after_head.count == s.count) by {
        reveal_with_fuel(run_frame, 6);
        assert(head.len() == 5);
        assert(head.subrange(1, 5).subrange(1, 4).subrange(1, 3).subrange(1, 2).subrange(1, 1)
            =~= Seq::<FrameOpView>::empty());
    }
    lemma_frame_concat(head, copies, procs, values, s);
    lemma_frame_uncommitted(copies, procs, values, after_head);
    let after_copies = run_frame(copies, procs, values, after_head);
    lemma_frame_concat(head + copies, table, procs, values, s);
    lemma_frame_uncommitted(table, procs, values, after_copies);
    lemma_frame_concat(body, seq![FrameOpView::WriteState], procs, values, s);
    let before_commit = run_frame(body, procs, values, s);
    assert(run_frame(seq![FrameOpView::WriteState], procs, values, before_commit) == (FrameState {
        committed: Some((before_commit.count + 1, before_commit.offset)),
        ..before_commit
    })) by {
        reveal_with_fuel(run_frame, 2);
        assert(seq![FrameOpView::WriteState].subrange(1, 1) =~= Seq::<FrameOpView>::empty());
    }
}

/// Every store lies between `from` and `end`.
pub open spec fn writes_between(writes: Seq<Write>, from: int, end: int) -> bool {
    forall|i: int|
        0 <= i < writes.len() ==> from <= (#[trigger] writes[i]).at && writes[i].at
            + writes[i].width <= end
}

/// The steps that copy the values of the variables from number `from` on.
pub open spec fn copies_from(
    t: Seq<LayoutEntry<'_>>,
    ptr: PtrWidth,
    lookups: Seq<InLayout>,
    from: int,
) -> Seq<FrameOpView> {
    Seq::new((lookups.len() - from) as nat, |i: int| lookup_op(t, ptr, lookups, from + i))
}

/// The steps that fill the rows of the variables from number `from` on.
pub open spec fn rows_from(ptr: PtrWidth, variables: Seq<u32>, count: int, from: int) -> Seq<
    FrameOpView,
> {
    Seq::new((count - from) as nat, |i: int| row_op(ptr, variables, from + i))
}

/// The values of the variables are written one behind the other, from
/// the first free byte on.
#[verifier::rlimit(40)]
pub proof fn lemma_copies_in_bounds(
    t: Seq<LayoutEntry<'_>>,
    ptr: PtrWidth,
    lookups: Seq<InLayout>,
    from: int,
    values: Seq<Value>,
    s: FrameState,
)
    requires
        sizes_fit(t, ptr),
        forall|i: int| 0 <= i < lookups.len() ==> (#[trigger] lookups[i]) < t.len(),
        0 <= from <= lookups.len() <= usize::MAX,
    ensures
        ({
            let end = run_frame(copies_from(t, ptr, lookups, from), procs_of(t, ptr), values, s);
            &&& end.offset >= s.offset
            &&& end.table_at == s.table_at
            &&& end.count == s.count
            &&& end.committed == s.committed
            &&& end.writes.len() >= s.writes.len()
            &&& end.writes.subrange(0, s.writes.len() as int) == s.writes
            &&& writes_between(
                end.writes.subrange(s.writes.len() as int, end.writes.len() as int),
                s.offset,
                end.offset,
            )
        }),
    decreases lookups.len() - from,
{
    let procs = procs_of(t, ptr);
    let ops = copies_from(t, ptr, lookups, from);
    if from == lookups.len() {
        assert(ops.len() == 0);
        assert(s.writes.subrange(0, s.writes.len() as int) =~= s.writes);
    } else {
        let layout = lookups[from];
        assert(ops[0] == lookup_op(t, ptr, lookups, from));
        assert(ops.subrange(1, ops.len() as int) =~= copies_from(t, ptr, lookups, from + 1));
        let c = Cursors { offset: s.offset, extra: s.offset + size_at(t, layout) };
        lemma_clone_in_bounds(t, ptr, layout, values[from], c);
        let outcome = run_ops(clone_ops(t, ptr, layout), procs, values[from], c);
        let next = run_frame_op(ops[0], procs, values, s);
        assert(next.writes == s.writes + outcome.writes);
        lemma_copies_in_bounds(t, ptr, lookups, from + 1, values, next);
        let end = run_frame(ops, procs, values, s);
        assert(end.writes.subrange(0, s.writes.len() as int) =~= s.writes) by {
            assert(next.writes.subrange(0, s.writes.len() as int) =~= s.writes);
            assert(end.writes.subrange(0, next.writes.len() as int) == next.writes);
            assert forall|i: int| 0 <= i < s.writes.len() implies end.writes[i] == s.writes[i] by {
                assert(end.writes.subrange(0, next.writes.len() as int)[i] == next.writes[i]);
            }
        }
        let added = end.writes.subrange(s.writes.len() as int, end.writes.len() as int);
        assert forall|i: int| 0 <= i < added.len() implies s.offset <= (#[trigger] added[i]).at
            && added[i].at + added[i].width <= end.offset by {
            let at = s.writes.len() + i;
            if at < next.writes.len() {
                assert(end.writes.subrange(0, next.writes.len() as int)[at] == next.writes[at]);
                assert(next.writes[at] == outcome.writes[i]);
            } else {
                let rest = end.writes.subrange(next.writes.len() as int, end.writes.len() as int);
                assert(rest[at - next.writes.len()] == end.writes[at]);
            }
        }
    }
}

/// The rows are written into the table.
#[verifier::rlimit(40)]
pub proof fn lemma_rows_in_bounds(
    ptr: PtrWidth,
    variables: Seq<u32>,
    count: int,
    from: int,
    procs: Procs,
    values: Seq<Value>,
    s: FrameState,
)
    requires
        0 <= from <= count,
        count * row_bytes(ptr) <= u64::MAX,
    ensures
        ({
            let end = run_frame(rows_from(ptr, variables, count, from), procs, values, s);
            &&& end.offset == s.offset
            &&& end.count == s.count
            &&& end.committed == s.committed
            &&& end.writes.len() >= s.writes.len()
            &&& end.writes.subrange(0, s.writes.len() as int) == s.writes
            &&& writes_between(
                end.writes.subrange(s.writes.len() as int, end.writes.len() as int),
                s.table_at,
                s.table_at + count * row_bytes(ptr),
            )
        }),
    decreases count - from,
{
    let ops = rows_from(ptr, variables, count, from);
    if from == count {
        assert(ops.len() == 0);
        assert(s.writes.subrange(0, s.writes.len() as int) =~= s.writes);
    } else {
        assert(ops[0] == row_op(ptr, variables, from));
        assert(ops.subrange(1, ops.len() as int) =~= rows_from(ptr, variables, count, from + 1));
        let row = row_bytes(ptr);
        assert(0 <= from * row && from * row + row <= count * row) by (nonlinear_arith)
            requires
                0 <= from < count,
                0 <= row,
        ;
        let next = run_frame_op(ops[0], procs, values, s);
        lemma_rows_in_bounds(ptr, variables, count, from + 1, procs, values, next);
        let end = run_frame(ops, procs, values, s);
        assert(next.writes.len() == s.writes.len() + 2);
        assert(end.writes.subrange(0, s.writes.len() as int) =~= s.writes) by {
            assert forall|i: int| 0 <= i < s.writes.len() implies end.writes[i] == s.writes[i] by {
                assert(end.writes.subrange(0, next.writes.len() as int)[i] == next.writes[i]);
            }
        }
        let added = end.writes.subrange(s.writes.len() as int, end.writes.len() as int);
        assert forall|i: int| 0 <= i < added.len() implies s.table_at <= (#[trigger] added[i]).at
            && added[i].at + added[i].width <= s.table_at + count * row by {
            let at = s.writes.len() + i;
            if at < next.writes.len() {
                assert(end.writes.subrange(0, next.writes.len() as int)[at] == next.writes[at]);
            } else {
                let rest = end.writes.subrange(next.writes.len() as int, end.writes.len() as int);
                assert(rest[at - next.writes.len()] == end.writes[at]);
            }
        }
    }
}

/// A frame is written behind what the buffer holds.
///
/// Let the declared sizes of the table be large enough. Then every store
/// of the code that appends a frame lies between the first free byte as
/// it was read and the first free byte as it is written in the end: the
/// frames before and the two words of the state are not touched.
#[verifier::rlimit(40)]
pub proof fn lemma_frame_in_bounds(
    t: Seq<LayoutEntry<'_>>,
    ptr: PtrWidth,
    condition_module: ModuleId,
    region: Region,
    lookups: Seq<InLayout>,
    variables: Seq<u32>,
    values: Seq<Value>,
    s: FrameState,
)
    requires
        sizes_fit(t, ptr),
        forall|i: int| 0 <= i < lookups.len() ==> (#[trigger] lookups[i]) < t.len(),
        lookups.len() <= usize::MAX,
        lookups.len() * row_bytes(ptr) <= u64::MAX,
        s.writes.len() == 0,
    ensures
        ({
            let code = frame_ops(t, ptr, condition_module, region, lookups, variables);
            let end = run_frame(code, procs_of(t, ptr), values, s);
            writes_between(end.writes, s.offset, end.offset)
        }),
{
    let procs = procs_of(t, ptr);
    let code = frame_ops(t, ptr, condition_module, region, lookups, variables);
    let row = row_bytes(ptr);
    let n = lookups.len() as int;
    let m = rows(lookups, variables);
    let head = seq![FrameOpView::ReadState] + header_ops(condition_module, region) + seq![
        FrameOpView::SkipTable { bytes: (lookups.len() * row_bytes(ptr)) as u64 },
    ];
    let copies = Seq::new(lookups.len(), |i: int| lookup_op(t, ptr, lookups, i));
    let table = Seq::new(m as nat, |i: int| row_op(ptr, variables, i));
    let commit = seq![FrameOpView::WriteState];
    assert(code == head + copies + table + commit);
    assert(copies =~= copies_from(t, ptr, lookups, 0));
    assert(table =~= rows_from(ptr, variables, m, 0));
    assert(m * row <= n * row) by (nonlinear_arith)
        requires
            0 <= m <= n,
            0 <= row,
    ;

    let after_head = run_frame(head, procs, values, s);
    assert(after_head.offset == s.offset + HEADER_BYTES + n * row && after_head.table_at
        == s.offset + HEADER_BYTES && after_head.writes.len() == 3 && writes_between(
        after_head.writes,
        s.offset,
        s.offset + HEADER_BYTES,
    )) by {
        reveal_with_fuel(run_frame, 6);
        assert(head.len() == 5);
        assert(head.subrange(1, 5).subrange(1, 4).subrange(1, 3).subrange(1, 2).subrange(1, 1)
            =~= Seq::<FrameOpView>::empty());
    }
    lemma_frame_concat(head, copies, procs, values, s);
    lemma_copies_in_bounds(t, ptr, lookups, 0, values, after_head);
    let after_copies = run_frame(copies, procs, values, after_head);
    lemma_frame_concat(head + copies, table, procs, values, s);
    lemma_rows_in_bounds(ptr, variables, m, 0, procs, values, after_copies);
    let after_table = run_frame(table, procs, values, after_copies);
    lemma_frame_concat(head + copies + table, commit, procs, values, s);
    let end = run_frame(code, procs, values, s);
    assert(end.writes == after_table.writes && end.offset == after_table.offset) by {
        reveal_with_fuel(run_frame, 2);
        assert(commit.subrange(1, 1) =~= Seq::<FrameOpView>::empty());
    }
    assert forall|i: int| 0 <= i < end.writes.len() implies s.offset <= (#[trigger] end.writes[i]).at
        && end.writes[i].at + end.writes[i].width <= end.offset by {
        let a = after_head.writes.len() as int;
        let b = after_copies.writes.len() as int;
        if i < a {
            assert(after_table.writes.subrange(0, b)[i] == after_copies.writes[i]);
            assert(after_copies.writes.subrange(0, a)[i] == after_head.writes[i]);
        } else if i < b {
            assert(after_table.writes.subrange(0, b)[i] == after_copies.writes[i]);
            let added = after_copies.writes.subrange(a, b);
            assert(added[i - a] == after_copies.writes[i]);
        } else {
            let added = after_table.writes.subrange(b, after_table.writes.len() as int);
            assert(added[i - b] == after_table.writes[i]);
        }
    }
}

} // verus!
