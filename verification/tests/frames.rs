use layout_helpers::frame::{
    clone_to_shared_memory, notify_parent_dbg, notify_parent_expect, read_state, write_header,
    write_state, BackendMode, FrameOp, Region, RuntimeFn, SharedMemoryPointer, HEADER_BYTES,
    VARIABLE_BYTES,
};
use layout_helpers::layout::{
    Builtin, Layout, LayoutInterner, PtrWidth, UnionLayout, LAYOUT_STR, LAYOUT_U64,
};
use layout_helpers::snapshot_code::{Op, Word};
use layout_helpers::snapshot_gen::CloneProcs;

#[test]
fn the_buffer_is_a_shared_file_in_development_builds() {
    assert_eq!(SharedMemoryPointer::get(BackendMode::BinaryDev).start_function, RuntimeFn::ExpectFailedStartSharedFile);
    for mode in [
        BackendMode::Binary,
        BackendMode::BinaryGlue,
        BackendMode::GenTest,
        BackendMode::WasmGenTest,
        BackendMode::CliTest,
    ] {
        assert_eq!(SharedMemoryPointer::get(mode).start_function, RuntimeFn::ExpectFailedStartSharedBuffer);
    }
}

#[test]
fn the_parent_is_told_what_has_happened() {
    let buffer = SharedMemoryPointer::get(BackendMode::Binary);
    assert_eq!(notify_parent_expect(&buffer), FrameOp::Notify { function: RuntimeFn::NotifyParentExpect });
    assert_eq!(notify_parent_dbg(&buffer), FrameOp::Notify { function: RuntimeFn::NotifyParentDbg });
}

#[test]
fn the_header_holds_the_range_and_the_module() {
    let mut frame = Vec::new();
    let bytes = write_header(&mut frame, 77, Region { start: 10, end: 25 });
    assert_eq!(bytes, 12);
    assert_eq!(bytes, HEADER_BYTES);
    assert_eq!(
        frame,
        [FrameOp::StoreU32 { value: 10 }, FrameOp::StoreU32 { value: 25 }, FrameOp::StoreU32 { value: 77 }]
    );
    assert_eq!(VARIABLE_BYTES, 4);
}

#[test]
fn the_state_is_read_first_and_written_last() {
    let mut frame = Vec::new();
    read_state(&mut frame);
    write_state(&mut frame);
    assert_eq!(frame, [FrameOp::ReadState, FrameOp::WriteState]);
}

fn small_table(ptr: PtrWidth) -> LayoutInterner<'static> {
    let mut t = LayoutInterner::new(ptr);
    let p = ptr.bytes();
    assert_eq!(t.insert(Layout::Builtin(Builtin::List(LAYOUT_U64)), 3 * p, 0), Some(8));
    assert_eq!(t.insert(Layout::RecursivePointer(11), p, 0), Some(9));
    assert_eq!(t.insert(Layout::Struct(&[LAYOUT_U64, 9]), 8 + p, 0), Some(10));
    let list = UnionLayout::NullableUnwrapped { nullable_id: false, other_fields: 10 };
    assert_eq!(t.insert(Layout::Union(list), p, 8 + p), Some(11));
    t
}

#[test]
fn a_frame_without_variables() {
    let t = small_table(PtrWidth::Bytes8);
    let mut procs = CloneProcs::new(&t);
    let buffer = SharedMemoryPointer::get(BackendMode::CliTest);
    let frame = clone_to_shared_memory(&t, &mut procs, &buffer, 3, Region { start: 1, end: 2 }, &[], &[]);
    assert_eq!(
        frame,
        [
            FrameOp::ReadState,
            FrameOp::StoreU32 { value: 1 },
            FrameOp::StoreU32 { value: 2 },
            FrameOp::StoreU32 { value: 3 },
            FrameOp::SkipTable { bytes: 0 },
            FrameOp::WriteState,
        ]
    );
}

#[test]
fn a_frame_with_variables() {
    let t = small_table(PtrWidth::Bytes8);
    let mut procs = CloneProcs::new(&t);
    let buffer = SharedMemoryPointer::get(BackendMode::CliTest);
    let frame = clone_to_shared_memory(
        &t,
        &mut procs,
        &buffer,
        3,
        Region { start: 100, end: 120 },
        &[LAYOUT_STR, 8, 11],
        &[40, 41, 42],
    );
    let header = |delta, word| Op::Store { delta, width: 8, word };
    assert_eq!(
        frame,
        [
            FrameOp::ReadState,
            FrameOp::StoreU32 { value: 100 },
            FrameOp::StoreU32 { value: 120 },
            FrameOp::StoreU32 { value: 3 },
            FrameOp::SkipTable { bytes: 36 },
            FrameOp::CloneLookup {
                index: 0,
                layout: LAYOUT_STR,
                reserve: 24,
                code: vec![Op::StrCloneTo { header: 24 }]
            },
            FrameOp::CloneLookup {
                index: 1,
                layout: 8,
                reserve: 24,
                code: vec![
                    header(0, Word::ExtraOffset),
                    header(8, Word::Length),
                    header(16, Word::Length),
                    Op::CopyElements { width: 8 },
                ]
            },
            FrameOp::CloneLookup { index: 2, layout: 11, reserve: 8, code: vec![Op::Call { union: 11 }] },
            FrameOp::StoreLookup { index: 0, delta: 0, ptr_bytes: 8, variable: 40 },
            FrameOp::StoreLookup { index: 1, delta: 12, ptr_bytes: 8, variable: 41 },
            FrameOp::StoreLookup { index: 2, delta: 24, ptr_bytes: 8, variable: 42 },
            FrameOp::WriteState,
        ]
    );
    // the procedure that the last value needs was generated
    assert!(procs.body(11).is_some());
    assert!(procs.body(8).is_none());
}

#[test]
fn rows_are_narrower_where_pointers_are() {
    let t = small_table(PtrWidth::Bytes4);
    let mut procs = CloneProcs::new(&t);
    let buffer = SharedMemoryPointer::get(BackendMode::WasmGenTest);
    let frame =
        clone_to_shared_memory(&t, &mut procs, &buffer, 0, Region { start: 0, end: 0 }, &[LAYOUT_U64, LAYOUT_U64], &[7, 8]);
    assert_eq!(frame[4], FrameOp::SkipTable { bytes: 16 });
    assert_eq!(frame[7], FrameOp::StoreLookup { index: 0, delta: 0, ptr_bytes: 4, variable: 7 });
    assert_eq!(frame[8], FrameOp::StoreLookup { index: 1, delta: 8, ptr_bytes: 4, variable: 8 });
    assert_eq!(frame.len(), 10);
}

#[test]
fn a_variable_without_a_type_has_no_row() {
    let t = small_table(PtrWidth::Bytes8);
    let mut procs = CloneProcs::new(&t);
    let buffer = SharedMemoryPointer::get(BackendMode::GenTest);
    let region = Region { start: 0, end: 0 };
    let frame = clone_to_shared_memory(&t, &mut procs, &buffer, 0, region, &[LAYOUT_U64, LAYOUT_U64], &[7]);
    // room is left for both rows, both values are copied, one row is filled
    assert_eq!(frame[4], FrameOp::SkipTable { bytes: 24 });
    assert!(matches!(frame[5], FrameOp::CloneLookup { index: 0, .. }));
    assert!(matches!(frame[6], FrameOp::CloneLookup { index: 1, .. }));
    assert_eq!(frame[7], FrameOp::StoreLookup { index: 0, delta: 0, ptr_bytes: 8, variable: 7 });
    assert_eq!(frame[8], FrameOp::WriteState);
    assert_eq!(frame.len(), 9);
    // a type without a variable is passed over
    let frame = clone_to_shared_memory(&t, &mut procs, &buffer, 0, region, &[LAYOUT_U64], &[7, 8, 9]);
    assert_eq!(frame.len(), 8);
}
