//! The code that copies a value into a flat buffer, as the backend is to
//! emit it.
//!
//! The code works on a buffer and on two cursors into it. `offset` is
//! where the fixed-size part of the value in focus is written. `extra` is
//! where what the value points to is appended: the characters of a string,
//! the elements of a list, the payload of a boxed value or of a union. In
//! place of a pointer the buffer holds the offset of what it led to, so the
//! buffer can be copied and read by another process.
//!
//! A piece of code runs on the value in focus and may move both cursors.
//! Its result is the value of `extra` when it ends.
use crate::layout::InLayout;
use vstd::prelude::*;

verus! {

/// What a store writes.
#[derive(Clone, Copy, Debug, PartialEq, Eq, Structural)]
pub enum Word {
    /// The value in focus, byte by byte.
    Data,
    /// The cursor `extra`, as a number of pointer width.
    ExtraOffset,
    /// The cursor `extra`, cut to 32 bits.
    ExtraOffset32,
    /// The number of a union's variant, in 32 bits.
    TagId(u16),
    /// The number of items of the collection in focus, as a number of
    /// pointer width.
    Length,
}

#[derive(Debug, PartialEq, Eq)]
pub enum Op {
    /// Writes `width` bytes at `offset + delta`.
    Store { delta: u64, width: u64, word: Word },
    /// Moves `offset` forward.
    Advance { bytes: u64 },
    /// Calls the runtime's function that copies a string: the `header`
    /// bytes of the string itself go to `offset`, its characters to `extra`
    /// if it keeps them on the heap, and `extra` moves behind them.
    StrCloneTo { header: u64 },
    /// Runs `code` with the focus on a field of the struct in focus.
    Field { index: usize, code: Vec<Op> },
    /// Runs `code` with the focus on what the pointer in focus leads to.
    Deref { code: Vec<Op> },
    /// Runs `code` with `offset` at `extra` and `extra` moved `reserve`
    /// bytes forward: the code fills what it reserved and appends behind
    /// it. Afterwards `offset` is what it was.
    Enter { reserve: u64, code: Vec<Op> },
    /// Copies the items of the collection in focus, `width` bytes each, to
    /// `extra` and moves `extra` behind them.
    CopyElements { width: u64 },
    /// Reserves `width` bytes at `extra` for each item of the collection in
    /// focus, and runs `code` for each item in turn, with the focus on the
    /// item, `offset` at its reserved bytes and `extra` behind all that was
    /// written so far.
    EachElement { width: u64, code: Vec<Op> },
    /// Calls the procedure that copies a value of a union.
    Call { union: InLayout },
}

/// The code for one variant of a union.
#[derive(Debug, PartialEq, Eq)]
pub struct Case {
    pub tag_id: u16,
    /// The struct of the variant's fields.
    pub variant: InLayout,
    /// Where the payload is loaded together with the discriminant that
    /// lies behind it, the layout of the discriminant.
    pub tag_id_layout: Option<InLayout>,
    /// The value is a pointer that may hold the discriminant in its low
    /// bits: they are cleared before the payload is loaded.
    pub clears_tag_id: bool,
    /// Runs with the focus on the payload.
    pub code: Vec<Op>,
}

/// The body of the procedure that copies a value of a union. The procedure
/// takes the buffer, both cursors and the value, and returns `extra`.
#[derive(Debug, PartialEq, Eq)]
pub enum Body {
    /// The union has no variant, so the procedure is never called.
    Unreachable,
    /// Reads the discriminant and goes on with the case for it. The last
    /// case also stands for every number that has no case.
    Switch { cases: Vec<Case> },
    /// The union has one variant with a payload.
    Only { variant: InLayout, code: Vec<Op> },
    /// For the null pointer, writes `sentinel` bytes of zero at `offset`
    /// and returns `extra` as it is. Else goes on with `other`.
    NullOr { sentinel: u64, other: Box<Body> },
}

pub enum OpView {
    Store { delta: u64, width: u64, word: Word },
    Advance { bytes: u64 },
    StrCloneTo { header: u64 },
    Field { index: usize, code: Seq<OpView> },
    Deref { code: Seq<OpView> },
    Enter { reserve: u64, code: Seq<OpView> },
    CopyElements { width: u64 },
    EachElement { width: u64, code: Seq<OpView> },
    Call { union: InLayout },
}

pub struct CaseView {
    pub tag_id: u16,
    pub variant: InLayout,
    pub tag_id_layout: Option<InLayout>,
    pub clears_tag_id: bool,
    pub code: Seq<OpView>,
}

pub enum BodyView {
    Unreachable,
    Switch { cases: Seq<CaseView> },
    Only { variant: InLayout, code: Seq<OpView> },
    NullOr { sentinel: u64, other: Box<BodyView> },
}

impl View for Op {
    type V = OpView;

    open spec fn view(&self) -> OpView
        decreases self,
    {
        match self {
            Op::Store { delta, width, word } => OpView::Store {
                delta: *delta,
                width: *width,
                word: *word,
            },
            Op::Advance { bytes } => OpView::Advance { bytes: *bytes },
            Op::StrCloneTo { header } => OpView::StrCloneTo { header: *header },
            Op::Field { index, code } => OpView::Field { index: *index, code: ops_view(code@) },
            Op::Deref { code } => OpView::Deref { code: ops_view(code@) },
            Op::Enter { reserve, code } => OpView::Enter { reserve: *reserve, code: ops_view(code@) },
            Op::CopyElements { width } => OpView::CopyElements { width: *width },
            Op::EachElement { width, code } => OpView::EachElement {
                width: *width,
                code: ops_view(code@),
            },
            Op::Call { union } => OpView::Call { union: *union },
        }
    }
}

/// The views of the items of a piece of code.
pub open spec fn ops_view(ops: Seq<Op>) -> Seq<OpView>
    decreases ops,
{
    Seq::new(
        ops.len(),
        |i: int|
            if 0 <= i < ops.len() {
                ops[i]@
            } else {
                OpView::Advance { bytes: 0 }
            },
    )
}

impl View for Case {
    type V = CaseView;

    open spec fn view(&self) -> CaseView {
        CaseView {
            tag_id: self.tag_id,
            variant: self.variant,
            tag_id_layout: self.tag_id_layout,
            clears_tag_id: self.clears_tag_id,
            code: ops_view(self.code@),
        }
    }
}

/// The views of the cases of a switch.
pub open spec fn cases_view(cases: Seq<Case>) -> Seq<CaseView> {
    Seq::new(cases.len(), |i: int| cases[i]@)
}

impl View for Body {
    type V = BodyView;

    open spec fn view(&self) -> BodyView
        decreases self,
    {
        match self {
            Body::Unreachable => BodyView::Unreachable,
            Body::Switch { cases } => BodyView::Switch { cases: cases_view(cases@) },
            Body::Only { variant, code } => BodyView::Only {
                variant: *variant,
                code: ops_view(code@),
            },
            Body::NullOr { sentinel, other } => BodyView::NullOr {
                sentinel: *sentinel,
                other: Box::new((**other).view()),
            },
        }
    }
}

/// The view of code to which an item was added.
pub proof fn lemma_ops_view_push(ops: Seq<Op>, op: Op)
    ensures
        ops_view(ops.push(op)) == ops_view(ops).push(op@),
{
    assert(ops_view(ops.push(op)) =~= ops_view(ops).push(op@));
}

/// The view of no code.
pub proof fn lemma_ops_view_empty()
    ensures
        ops_view(Seq::<Op>::empty()) == Seq::<OpView>::empty(),
{
    assert(ops_view(Seq::<Op>::empty()) =~= Seq::<OpView>::empty());
}

} // verus!
